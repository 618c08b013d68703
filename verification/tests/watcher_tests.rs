use wayland_file_manager::error::FileManagerError;
use wayland_file_manager::watcher::{check_watch_target, events_for, NotificationKind, WatchedPaths, WatcherEvent};

#[test]
fn test_watcher_event_variants() {
    // Test that WatcherEvent variants can be created
    let _created = WatcherEvent::Created(String::from("/test"));
    let _modified = WatcherEvent::Modified(String::from("/test"));
    let _deleted = WatcherEvent::Deleted(String::from("/test"));
    let _renamed = WatcherEvent::Renamed(String::from("/old"), String::from("/new"));
    assert!(true);
}

#[test]
fn notifications_become_events_per_path() {
    let paths = vec!["/a".to_string(), "/b".to_string()];
    let ev = events_for(NotificationKind::Create, &paths);
    assert_eq!(ev.len(), 2);
    assert!(matches!(&ev[0], WatcherEvent::Created(p) if p == "/a"));
    assert!(matches!(&ev[1], WatcherEvent::Created(p) if p == "/b"));
    let ev = events_for(NotificationKind::Remove, &paths);
    assert!(matches!(&ev[1], WatcherEvent::Deleted(p) if p == "/b"));
    let ev = events_for(NotificationKind::Modify, &paths);
    assert!(matches!(&ev[0], WatcherEvent::Modified(p) if p == "/a"));
    assert!(events_for(NotificationKind::Other, &paths).is_empty());
}

#[test]
fn watched_paths_are_a_set() {
    let mut w = WatchedPaths::new();
    w.insert("/a".to_string());
    w.insert("/a".to_string());
    w.insert("/b".to_string());
    assert!(w.contains(&"/a".to_string()));
    w.remove(&"/a".to_string());
    assert!(!w.contains(&"/a".to_string()));
    assert!(w.contains(&"/b".to_string()));
    w.remove(&"/zzz".to_string());
    assert!(w.contains(&"/b".to_string()));
}

#[test]
fn watch_target_must_exist() {
    assert!(matches!(check_watch_target("/gone", false), Err(FileManagerError::NotFound(p)) if p == "/gone"));
    assert!(check_watch_target("/here", true).is_ok());
}

#[test]
fn test_watch_nonexistent_path() {
    let path = "/nonexistent/path/that/does/not/exist";
    let result = check_watch_target(path, std::path::Path::new(path).exists());
    assert!(result.is_err());
    assert!(matches!(result, Err(FileManagerError::NotFound(s)) if s == path));
}
