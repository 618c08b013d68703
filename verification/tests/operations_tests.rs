use wayland_file_manager::error::FileManagerError;
use wayland_file_manager::operations::copy::{check_copy_file, check_copy_source, CopyOptions};
use wayland_file_manager::operations::{DeleteOptions, OperationProgress};

#[test]
fn test_copy_options_default() {
    let options = CopyOptions::new();
    assert!(!options.overwrite);
    assert_eq!(options.buffer_size, 64 * 1024);
}

#[test]
fn test_copy_options_builder() {
    let options = CopyOptions::new().with_overwrite(true).with_buffer_size(128 * 1024);

    assert!(options.overwrite);
    assert_eq!(options.buffer_size, 128 * 1024);
}

#[test]
fn test_copy_options_overwrite() {
    let options = CopyOptions::new().with_overwrite(true);
    assert!(options.overwrite);
}

#[test]
fn test_copy_options_buffer_size() {
    let options = CopyOptions::new().with_buffer_size(1024);
    assert_eq!(options.buffer_size, 1024);
}

#[test]
fn copy_checks_refuse_in_order() {
    let opts = CopyOptions::new();
    assert!(matches!(check_copy_file("/s", false, false, "/d", true, &opts), Err(FileManagerError::NotFound(p)) if p == "/s"));
    assert!(matches!(check_copy_file("/s", true, false, "/d", true, &opts), Err(FileManagerError::NotFile(p)) if p == "/s"));
    assert!(matches!(check_copy_file("/s", true, true, "/d", true, &opts), Err(FileManagerError::AlreadyExists(p)) if p == "/d"));
    assert!(check_copy_file("/s", true, true, "/d", false, &opts).is_ok());
    assert!(check_copy_file("/s", true, true, "/d", true, &opts.with_overwrite(true)).is_ok());
    assert!(check_copy_source("/s", false).is_err());
    assert!(check_copy_source("/s", true).is_ok());
}

#[test]
fn default_options_and_progress() {
    let d = CopyOptions::default();
    assert!(!d.overwrite);
    assert_eq!(d.buffer_size, 0);
    let del = DeleteOptions::default();
    assert!(!del.recursive && !del.force);
    let p = OperationProgress::new(7);
    assert_eq!(p.total_files, 7);
    assert_eq!(p.files_processed, 0);
    assert_eq!(p.processed_bytes, 0);
    assert!(p.current_file.is_none() && p.total_bytes.is_none());
    let m = wayland_file_manager::operations::CopyOptions::default();
    assert!(!m.overwrite);
}
