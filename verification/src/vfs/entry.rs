//! VFS directory entry types
//!
//! Defines the `DirectoryEntry` struct representing a file system entry
//! with path, name, and metadata (size, mtime, file type).

use vstd::prelude::*;
use crate::path::{file_name, file_name_of, normalize_lexical, normalize_lexically};

verus! {

/// Metadata for a file system entry
#[derive(Debug, Clone, Copy, PartialEq, Eq, Structural)]
pub struct EntryMetadata {
    /// File size in bytes (0 for directories/symlinks)
    pub size: u64,
    /// Last modification time as UNIX timestamp in seconds (None if unavailable)
    pub modified_at: Option<u64>,
    /// Whether the entry is a regular file
    pub is_file: bool,
    /// Whether the entry is a directory
    pub is_dir: bool,
    /// Whether the entry is a symbolic link
    pub is_symlink: bool,
}

impl EntryMetadata {
    /// Metadata from what the file system reports of an entry (read without
    /// following symlinks): its length, modification time and type. The size
    /// is the length for other entries and 0 for directories and symlinks.
    pub fn from_parts(len: u64, modified_at: Option<u64>, is_file: bool, is_dir: bool, is_symlink: bool) -> (m: Self)
        ensures
            m.size == (if is_dir || is_symlink { 0 } else { len }),
            m.modified_at == modified_at,
            m.is_file == is_file,
            m.is_dir == is_dir,
            m.is_symlink == is_symlink,
    {
        let size = if is_dir || is_symlink { 0 } else { len };
        EntryMetadata { size, modified_at, is_file, is_dir, is_symlink }
    }
}

/// A directory entry in the VFS
#[derive(Debug)]
pub struct DirectoryEntry {
    /// Full path to the entry
    pub path: String,
    /// File name (leaf component of the path)
    pub name: String,
    /// Metadata for the entry
    pub metadata: EntryMetadata,
}

impl Clone for DirectoryEntry {
    fn clone(&self) -> (r: Self)
        ensures
            r == *self,
    {
        DirectoryEntry { path: self.path.clone(), name: self.name.clone(), metadata: self.metadata }
    }
}

impl PartialEq for DirectoryEntry {
    fn eq(&self, other: &Self) -> (r: bool) {
        self.path == other.path && self.name == other.name && self.metadata == other.metadata
    }
}

impl vstd::std_specs::cmp::PartialEqSpecImpl for DirectoryEntry {
    open spec fn obeys_eq_spec() -> bool {
        true
    }

    open spec fn eq_spec(&self, other: &Self) -> bool {
        self.path@ == other.path@ && self.name@ == other.name@ && self.metadata == other.metadata
    }
}

impl DirectoryEntry {
    /// An entry for `path` with the given metadata, named by the path's file
    /// name; none when the path has no file name (a root, `..`, or empty).
    pub fn with_metadata(path: String, metadata: EntryMetadata) -> (r: Option<DirectoryEntry>)
        ensures
            match r {
                Some(e) => e.path == path && Some(e.name@) == file_name_of(path@) && e.metadata
                    == metadata,
                None => file_name_of(path@) is None,
            },
    {
        match file_name(path.as_str()) {
            Some(name) => Some(DirectoryEntry { path, name, metadata }),
            None => None,
        }
    }

    /// Normalize the entry's path: the canonical form the file system gave,
    /// where it gave one, else the lexical normalization of the path (see
    /// `normalize_lexically`).
    pub fn normalize_path(&self, canonical: Option<String>) -> (r: String)
        ensures
            match canonical {
                Some(c) => r == c,
                None => r@ == normalize_lexically(self.path@),
            },
    {
        match canonical {
            Some(c) => c,
            None => normalize_lexical(self.path.as_str()),
        }
    }
}

} // verus!
