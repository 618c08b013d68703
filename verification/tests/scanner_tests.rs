use std::time::Duration;
use wayland_file_manager::error::FileManagerError;
use wayland_file_manager::scanner::cache::SharedDirectoryCache;
use wayland_file_manager::scanner::{check_directory, Scanner};

#[test]
fn test_scanner_creation() {
    let _scanner = Scanner::new(1000, Duration::from_secs(300), 100);
    // Just verify it can be created
    assert!(true);
}

#[test]
fn test_scanner_capacity_and_ttl() {
    let scanner = Scanner::new(500, Duration::from_secs(600), 50);
    // Verify parameters are stored
    let _ = scanner;
    assert!(true);
}

#[test]
fn scanner_keeps_its_parameters() {
    let scanner = Scanner::new(500, Duration::from_secs(600), 50);
    assert_eq!(scanner.capacity, 500);
    assert_eq!(scanner.ttl, Duration::from_secs(600));
    assert_eq!(scanner.threshold, 50);
    let _cache = SharedDirectoryCache::new(10, Duration::from_secs(5));
}

#[test]
fn directory_checks() {
    assert!(matches!(check_directory("/nope", false, false), Err(FileManagerError::NotFound(p)) if p == "/nope"));
    assert!(matches!(check_directory("/f", true, false), Err(FileManagerError::NotDirectory(p)) if p == "/f"));
    assert!(check_directory("/d", true, true).is_ok());
}

#[test]
fn test_scan_nonexistent_path() {
    let _scanner = Scanner::new(100, Duration::from_secs(60), 10);
    let path = "/nonexistent/path/that/does/not/exist";
    let p = std::path::Path::new(path);
    let result = check_directory(path, p.exists(), p.is_dir());
    assert!(result.is_err());
    assert!(matches!(result, Err(FileManagerError::NotFound(s)) if s == path));
}

#[test]
fn test_scan_recursive_nonexistent() {
    let _scanner = Scanner::new(100, Duration::from_secs(60), 10);
    let path = "/nonexistent/path/that/does/not/exist";
    let p = std::path::Path::new(path);
    let result = check_directory(path, p.exists(), p.is_dir());
    assert!(result.is_err());
}
