use wayland_file_manager::vfs::entry::{DirectoryEntry, EntryMetadata};
use wayland_file_manager::vfs::LocalVfsBackend;

#[test]
fn test_entry_metadata_creation() {
    let metadata = EntryMetadata {
        size: 1024,
        modified_at: Some(1609459200), // 2021-01-01
        is_file: true,
        is_dir: false,
        is_symlink: false,
    };

    assert_eq!(metadata.size, 1024);
    assert!(metadata.is_file);
    assert!(!metadata.is_dir);
}

#[test]
fn test_directory_entry_creation() {
    let metadata = EntryMetadata {
        size: 0,
        modified_at: None,
        is_file: false,
        is_dir: true,
        is_symlink: false,
    };

    let entry = DirectoryEntry { path: String::from("/test"), name: "test".to_string(), metadata };

    assert_eq!(entry.name, "test");
    assert!(entry.metadata.is_dir);
}

#[test]
fn test_entry_metadata_file_types() {
    // Test file type detection
    let file_meta = EntryMetadata {
        size: 100,
        modified_at: Some(1000000),
        is_file: true,
        is_dir: false,
        is_symlink: false,
    };
    assert!(file_meta.is_file);
    assert!(!file_meta.is_dir);

    let dir_meta = EntryMetadata {
        size: 0,
        modified_at: Some(1000000),
        is_file: false,
        is_dir: true,
        is_symlink: false,
    };
    assert!(!dir_meta.is_file);
    assert!(dir_meta.is_dir);
}

fn meta() -> EntryMetadata {
    EntryMetadata { size: 5, modified_at: None, is_file: true, is_dir: false, is_symlink: false }
}

#[test]
fn entry_is_named_by_file_name() {
    let e = DirectoryEntry::with_metadata("/home/u/notes.txt".to_string(), meta()).unwrap();
    assert_eq!(e.name, "notes.txt");
    assert_eq!(e.path, "/home/u/notes.txt");
    assert!(DirectoryEntry::with_metadata("/".to_string(), meta()).is_none());
    assert!(DirectoryEntry::with_metadata("/a/..".to_string(), meta()).is_none());
}

#[test]
fn normalize_prefers_canonical_then_lexical() {
    let e = DirectoryEntry { path: "/a/./b/../c//d/".to_string(), name: "d".to_string(), metadata: meta() };
    assert_eq!(e.normalize_path(Some("/real".to_string())), "/real");
    assert_eq!(e.normalize_path(None), "/a/c/d");
    let rel = DirectoryEntry { path: "../x/./y/..".to_string(), name: "y".to_string(), metadata: meta() };
    assert_eq!(rel.normalize_path(None), "../x");
    let up = DirectoryEntry { path: "/..".to_string(), name: "".to_string(), metadata: meta() };
    assert_eq!(up.normalize_path(None), "/");
}

#[test]
fn entries_compare_by_fields() {
    let a = DirectoryEntry::with_metadata("/a".to_string(), meta()).unwrap();
    let b = a.clone();
    assert!(a == b);
    let c = DirectoryEntry::with_metadata("/c".to_string(), meta()).unwrap();
    assert!(a != c);
    let _backend = LocalVfsBackend::new();
}

#[test]
fn metadata_size_is_zero_for_folders_and_links() {
    let f = EntryMetadata::from_parts(42, Some(7), true, false, false);
    assert_eq!(f.size, 42);
    assert_eq!(f.modified_at, Some(7));
    assert!(f.is_file && !f.is_dir && !f.is_symlink);
    assert_eq!(EntryMetadata::from_parts(4096, None, false, true, false).size, 0);
    assert_eq!(EntryMetadata::from_parts(12, None, false, false, true).size, 0);
}
