//! The file manager's error type and the mapping from I/O failures to it.

use vstd::prelude::*;

verus! {

#[verifier::external_type_specification]
#[verifier::external_body]
pub struct ExIoError(std::io::Error);

/// Main error type for the file manager.
#[derive(Debug)]
pub enum FileManagerError {
    /// File system related errors
    FileSystem(std::io::Error),
    /// Path related errors
    InvalidPath(String),
    /// GTK/UI related errors
    Ui(String),
    /// File operation errors (copy, move, delete)
    Operation(String),
    /// VFS errors
    Vfs(String),
    /// Watcher errors
    Watcher(String),
    /// Permission denied
    PermissionDenied(String),
    /// File not found
    NotFound(String),
    /// Already exists
    AlreadyExists(String),
    /// Not a directory
    NotDirectory(String),
    /// Not a file
    NotFile(String),
    /// Unknown error
    Unknown(String),
}

/// The kinds of I/O failure that `io_error` tells apart.
#[derive(Clone, Copy, Debug, PartialEq, Eq, Structural)]
pub enum IoFailureKind {
    NotFound,
    PermissionDenied,
    AlreadyExists,
    NotADirectory,
    IsADirectory,
    Other,
}

/// The kind that `std::io::Error::kind` reports for an error, as far as the
/// file manager tells kinds apart.
pub uninterp spec fn io_kind(error: std::io::Error) -> IoFailureKind;

/// Reads `std::io::Error::kind` and keeps the five kinds the file manager
/// distinguishes; every other kind becomes `Other`. The kind is `io_kind` of
/// the error (an error's kind does not change).
#[verifier::external_body]
fn io_failure_kind(error: &std::io::Error) -> (kind: IoFailureKind)
    ensures
        kind == io_kind(*error),
{
    match error.kind() {
        std::io::ErrorKind::NotFound => IoFailureKind::NotFound,
        std::io::ErrorKind::PermissionDenied => IoFailureKind::PermissionDenied,
        std::io::ErrorKind::AlreadyExists => IoFailureKind::AlreadyExists,
        std::io::ErrorKind::NotADirectory => IoFailureKind::NotADirectory,
        std::io::ErrorKind::IsADirectory => IoFailureKind::IsADirectory,
        _ => IoFailureKind::Other,
    }
}

/// Renders an I/O error with its `Display` impl. The text comes from the
/// operating system or from whoever made the error; nothing is stated of it.
#[verifier::external_body]
fn io_error_text(error: &std::io::Error) -> String {
    format!("{}", error)
}

/// The error that an I/O failure of kind `kind` with context `context` becomes.
pub open spec fn is_error_for_kind(
    result: FileManagerError,
    kind: IoFailureKind,
    error: std::io::Error,
    context: Seq<char>,
) -> bool {
    match kind {
        IoFailureKind::NotFound => result matches FileManagerError::NotFound(s) && s@ == context,
        IoFailureKind::PermissionDenied => result matches FileManagerError::PermissionDenied(s)
            && s@ == context,
        IoFailureKind::AlreadyExists => result matches FileManagerError::AlreadyExists(s) && s@
            == context,
        IoFailureKind::NotADirectory => result matches FileManagerError::NotDirectory(s) && s@
            == context,
        IoFailureKind::IsADirectory => result matches FileManagerError::NotFile(s) && s@ == context,
        IoFailureKind::Other => result == FileManagerError::FileSystem(error),
    }
}

/// Maps an I/O failure of a known kind to the file manager's error, keeping
/// `context` for the five recognised kinds and the error itself otherwise.
pub fn io_error_for_kind(kind: IoFailureKind, error: std::io::Error, context: &str) -> (result:
    FileManagerError)
    ensures
        is_error_for_kind(result, kind, error, context@),
{
    match kind {
        IoFailureKind::NotFound => FileManagerError::NotFound(context.to_owned()),
        IoFailureKind::PermissionDenied => FileManagerError::PermissionDenied(context.to_owned()),
        IoFailureKind::AlreadyExists => FileManagerError::AlreadyExists(context.to_owned()),
        IoFailureKind::NotADirectory => FileManagerError::NotDirectory(context.to_owned()),
        IoFailureKind::IsADirectory => FileManagerError::NotFile(context.to_owned()),
        IoFailureKind::Other => FileManagerError::FileSystem(error),
    }
}

/// Convert a std::io::Error to our custom error with context.
pub fn io_error(error: std::io::Error, context: &str) -> (result: FileManagerError)
    ensures
        is_error_for_kind(result, io_kind(error), error, context@),
{
    let kind = io_failure_kind(&error);
    io_error_for_kind(kind, error, context)
}

impl FileManagerError {
    /// The error's message, as its `Display` renders it.
    pub fn message(&self) -> (m: String)
        ensures
            match self {
                FileManagerError::FileSystem(_) => exists|text: Seq<char>|
                    m@ == "File system error: "@ + text,
                FileManagerError::InvalidPath(s) => m@ == "Invalid path: "@ + s@,
                FileManagerError::Ui(s) => m@ == "UI error: "@ + s@,
                FileManagerError::Operation(s) => m@ == "Operation failed: "@ + s@,
                FileManagerError::Vfs(s) => m@ == "VFS error: "@ + s@,
                FileManagerError::Watcher(s) => m@ == "Watcher error: "@ + s@,
                FileManagerError::PermissionDenied(s) => m@ == "Permission denied: "@ + s@,
                FileManagerError::NotFound(s) => m@ == "File not found: "@ + s@,
                FileManagerError::AlreadyExists(s) => m@ == "Already exists: "@ + s@,
                FileManagerError::NotDirectory(s) => m@ == "Not a directory: "@ + s@,
                FileManagerError::NotFile(s) => m@ == "Not a file: "@ + s@,
                FileManagerError::Unknown(s) => m@ == "Unknown error: "@ + s@,
            },
    {
        match self {
            FileManagerError::FileSystem(e) => {
                let text = io_error_text(e);
                let m = String::from_str("File system error: ").concat(text.as_str());
                assert(m@ == "File system error: "@ + text@);
                m
            },
            FileManagerError::InvalidPath(s) => String::from_str("Invalid path: ").concat(
                s.as_str(),
            ),
            FileManagerError::Ui(s) => String::from_str("UI error: ").concat(s.as_str()),
            FileManagerError::Operation(s) => String::from_str("Operation failed: ").concat(
                s.as_str(),
            ),
            FileManagerError::Vfs(s) => String::from_str("VFS error: ").concat(s.as_str()),
            FileManagerError::Watcher(s) => String::from_str("Watcher error: ").concat(s.as_str()),
            FileManagerError::PermissionDenied(s) => String::from_str("Permission denied: ").concat(
                s.as_str(),
            ),
            FileManagerError::NotFound(s) => String::from_str("File not found: ").concat(
                s.as_str(),
            ),
            FileManagerError::AlreadyExists(s) => String::from_str("Already exists: ").concat(
                s.as_str(),
            ),
            FileManagerError::NotDirectory(s) => String::from_str("Not a directory: ").concat(
                s.as_str(),
            ),
            FileManagerError::NotFile(s) => String::from_str("Not a file: ").concat(s.as_str()),
            FileManagerError::Unknown(s) => String::from_str("Unknown error: ").concat(s.as_str()),
        }
    }
}

} // verus!
