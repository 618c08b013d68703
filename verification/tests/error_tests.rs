use wayland_file_manager::error::{io_error, io_error_for_kind, FileManagerError, IoFailureKind};

#[test]
fn test_io_error_conversion() {
    let not_found = std::io::Error::new(std::io::ErrorKind::NotFound, "test");
    let error = io_error(not_found, "/some/path");
    assert!(matches!(error, FileManagerError::NotFound(_)));
}

#[test]
fn test_permission_denied() {
    let perm_err = std::io::Error::new(std::io::ErrorKind::PermissionDenied, "test");
    let error = io_error(perm_err, "/protected/path");
    assert!(matches!(error, FileManagerError::PermissionDenied(_)));
}

#[test]
fn io_error_keeps_context_for_known_kinds() {
    let e = std::io::Error::new(std::io::ErrorKind::AlreadyExists, "x");
    match io_error(e, "/a/b") {
        FileManagerError::AlreadyExists(c) => assert_eq!(c, "/a/b"),
        other => panic!("unexpected {:?}", other),
    }
    let e = std::io::Error::new(std::io::ErrorKind::NotADirectory, "x");
    assert!(matches!(io_error(e, "/f"), FileManagerError::NotDirectory(_)));
    let e = std::io::Error::new(std::io::ErrorKind::IsADirectory, "x");
    assert!(matches!(io_error(e, "/d"), FileManagerError::NotFile(_)));
}

#[test]
fn io_error_keeps_other_errors() {
    let e = std::io::Error::new(std::io::ErrorKind::TimedOut, "slow");
    match io_error(e, "/x") {
        FileManagerError::FileSystem(inner) => assert_eq!(inner.kind(), std::io::ErrorKind::TimedOut),
        other => panic!("unexpected {:?}", other),
    }
}

#[test]
fn io_error_for_kind_maps_each_kind() {
    let mk = || std::io::Error::new(std::io::ErrorKind::Other, "e");
    assert!(matches!(io_error_for_kind(IoFailureKind::NotFound, mk(), "p"), FileManagerError::NotFound(_)));
    assert!(matches!(
        io_error_for_kind(IoFailureKind::PermissionDenied, mk(), "p"),
        FileManagerError::PermissionDenied(_)
    ));
    assert!(matches!(io_error_for_kind(IoFailureKind::Other, mk(), "p"), FileManagerError::FileSystem(_)));
}

#[test]
fn error_messages_follow_display_format() {
    assert_eq!(FileManagerError::NotFound("/x".to_string()).message(), "File not found: /x");
    assert_eq!(FileManagerError::Operation("boom".to_string()).message(), "Operation failed: boom");
    assert_eq!(FileManagerError::NotDirectory("/f".to_string()).message(), "Not a directory: /f");
    let fs = FileManagerError::FileSystem(std::io::Error::new(std::io::ErrorKind::Other, "disk"));
    assert_eq!(fs.message(), "File system error: disk");
}

#[test]
fn stub() {
    assert!(true);
}

#[test]
fn run_succeeds() {
    assert!(wayland_file_manager::run().is_ok());
}
