use wayland_file_manager::gui::app_window::{current_dir_for, current_dir_or_home};
use wayland_file_manager::error::FileManagerError;
use wayland_file_manager::gui::bookmarks::{
    add_bookmark, bookmark_for, bookmarks_or_default, bookmarks_path_for, default_bookmarks_for,
};
use wayland_file_manager::gui::filesystem::{
    drives_in, file_entry_from, filter_and_sort, media_dir, new_folder_candidates, rename_plan,
    run_media_dir, trash_candidate, trash_collision_path, trash_destination, trash_dir, untitled_folder_candidates,
    DriveSource, ListedPath, RenamePlan,
};
use wayland_file_manager::gui::operations::{
    check_open, choose_editor, editor_from_env, editor_from_which_output, get_default_editor,
    preferred_editor, trim, validate_open_path, OpenCheck,
};
use wayland_file_manager::gui::tabs::AppState;
use wayland_file_manager::gui::types::{Bookmark, FileEntry, NavState, SortBy, TabId, ViewMode};
use wayland_file_manager::gui::views::{
    size_column, size_column_text, truncated_display_name, type_label, ClickAction, SizeColumn,
};
use wayland_file_manager::vfs::entry::{DirectoryEntry, EntryMetadata};

fn entry(name: &str, is_dir: bool, size: u64, modified: u64, ext: &str) -> FileEntry {
    FileEntry {
        name: name.to_string(),
        path: format!("/d/{}", name),
        is_dir,
        size,
        modified,
        extension: ext.to_string(),
    }
}

fn names(v: &[FileEntry]) -> Vec<String> {
    v.iter().map(|e| e.name.clone()).collect()
}

fn sample() -> Vec<FileEntry> {
    vec![
        entry("beta.txt", false, 300, 20, "txt"),
        entry(".hidden", false, 10, 50, ""),
        entry("Alpha", true, 0, 10, ""),
        entry("alpha.rs", false, 300, 30, "rs"),
        entry("Zed", true, 0, 40, ""),
        entry("gamma.TXT", false, 5, 20, "TXT"),
    ]
}

#[test]
fn sort_by_name_puts_folders_first_case_insensitively() {
    let out = filter_and_sort(&sample(), true, "", SortBy::Name);
    assert_eq!(names(&out), vec!["Alpha", "Zed", ".hidden", "alpha.rs", "beta.txt", "gamma.TXT"]);
}

#[test]
fn hidden_entries_are_filtered_out() {
    let out = filter_and_sort(&sample(), false, "", SortBy::Name);
    assert_eq!(names(&out), vec!["Alpha", "Zed", "alpha.rs", "beta.txt", "gamma.TXT"]);
}

#[test]
fn search_is_case_insensitive_substring() {
    let out = filter_and_sort(&sample(), true, "ALPHA", SortBy::Name);
    assert_eq!(names(&out), vec!["Alpha", "alpha.rs"]);
    let out = filter_and_sort(&sample(), true, "txt", SortBy::Name);
    assert_eq!(names(&out), vec!["beta.txt", "gamma.TXT"]);
    let out = filter_and_sort(&sample(), true, "nothing", SortBy::Name);
    assert!(out.is_empty());
}

#[test]
fn date_and_size_sort_descending_and_stably() {
    let out = filter_and_sort(&sample(), true, "", SortBy::Date);
    assert_eq!(names(&out), vec![".hidden", "Zed", "alpha.rs", "beta.txt", "gamma.TXT", "Alpha"]);
    let out = filter_and_sort(&sample(), true, "", SortBy::Size);
    assert_eq!(names(&out), vec!["beta.txt", "alpha.rs", ".hidden", "gamma.TXT", "Alpha", "Zed"]);
}

#[test]
fn type_sort_orders_by_extension_after_folders() {
    let out = filter_and_sort(&sample(), true, "", SortBy::Type);
    assert_eq!(names(&out), vec!["Alpha", "Zed", ".hidden", "gamma.TXT", "alpha.rs", "beta.txt"]);
}

#[test]
fn sorting_a_sorted_listing_changes_nothing() {
    let once = filter_and_sort(&sample(), false, "a", SortBy::Name);
    let twice = filter_and_sort(&once, false, "a", SortBy::Name);
    assert_eq!(names(&once), names(&twice));
}

#[test]
fn listing_entry_from_vfs_entry() {
    let meta = EntryMetadata { size: 99, modified_at: Some(1234), is_file: true, is_dir: false, is_symlink: false };
    let e = file_entry_from(DirectoryEntry::with_metadata("/x/photo.jpeg".to_string(), meta).unwrap());
    assert_eq!(e.name, "photo.jpeg");
    assert_eq!(e.extension, "jpeg");
    assert_eq!(e.size, 99);
    assert_eq!(e.modified, 1234);
    let dmeta = EntryMetadata { size: 4096, modified_at: None, is_file: false, is_dir: true, is_symlink: false };
    let d = file_entry_from(DirectoryEntry::with_metadata("/x/.config".to_string(), dmeta).unwrap());
    assert_eq!(d.size, 0);
    assert_eq!(d.modified, 0);
    assert_eq!(d.extension, "");
}

#[test]
fn navigation_history() {
    let mut s = NavState::new("/a".to_string());
    assert_eq!(s.history, vec!["/a"]);
    assert!(s.show_hidden);
    assert!(matches!(s.sort_by, SortBy::Name));
    assert_eq!(s.view_mode, ViewMode::Icon);
    s.navigate_to("/b".to_string());
    s.navigate_to("/c".to_string());
    assert_eq!(s.history, vec!["/a", "/b", "/c"]);
    assert_eq!(s.history_index, 2);
    assert_eq!(s.go_back(), Some("/b".to_string()));
    assert_eq!(s.go_back(), Some("/a".to_string()));
    assert_eq!(s.go_back(), None);
    assert_eq!(s.go_forward(), Some("/b".to_string()));
    s.navigate_to("/d".to_string());
    assert_eq!(s.history, vec!["/a", "/b", "/d"]);
    assert_eq!(s.current_path, "/d");
    assert_eq!(s.go_forward(), None);
    s.navigate_to("/a".to_string());
    assert_eq!(s.history, vec!["/a", "/b", "/d"]);
    assert_eq!(s.current_path, "/a");
    assert_eq!(s.history_index, 2);
}

#[test]
fn moves_from_an_index_past_the_history() {
    let mut s = NavState::new("/a".to_string());
    s.history = vec!["/a".to_string(), "/b".to_string()];
    s.history_index = 5;
    s.navigate_to("/c".to_string());
    assert_eq!(s.history, vec!["/a", "/b", "/c"]);
    assert_eq!(s.history_index, 2);
    s.history_index = 3;
    assert_eq!(s.go_back(), Some("/c".to_string()));
    assert_eq!(s.history_index, 2);
    s.history_index = 7;
    assert_eq!(s.go_forward(), None);
    assert_eq!(s.history_index, 7);
    let mut t = NavState::new("/a".to_string());
    t.history.clear();
    t.open_directory("/x".to_string());
    assert_eq!(t.history, vec!["/x"]);
    assert_eq!(t.history_index, 0);
}

#[test]
fn back_then_forward_restores_the_place() {
    let mut s = NavState::new("/a".to_string());
    s.navigate_to("/b".to_string());
    s.go_back();
    s.go_forward();
    assert_eq!(s.current_path, "/b");
    assert_eq!(s.history_index, 1);
}

#[test]
fn going_up_uses_the_parent() {
    let mut s = NavState::new("/home/user/docs".to_string());
    assert_eq!(s.go_up(), Some("/home/user".to_string()));
    assert_eq!(s.current_path, "/home/user");
    assert_eq!(s.go_up(), Some("/home".to_string()));
    assert_eq!(s.go_up(), Some("/".to_string()));
    assert_eq!(s.go_up(), None);
    assert_eq!(s.current_path, "/");
}

#[test]
fn context_menu_open_appends() {
    let mut s = NavState::new("/a".to_string());
    s.open_directory("/a".to_string());
    assert_eq!(s.history, vec!["/a", "/a"]);
    assert_eq!(s.history_index, 1);
}

#[test]
fn selection_clicks() {
    let mut s = NavState::new("/d".to_string());
    assert!(matches!(s.click_list_entry("/d/f.txt".to_string(), false), ClickAction::OpenFile(p) if p == "/d/f.txt"));
    assert_eq!(s.selected_paths, vec!["/d/f.txt"]);
    assert!(matches!(s.click_icon_entry("/d/f.txt".to_string(), false, 3), ClickAction::Nothing));
    assert!(s.selected_paths.is_empty());
    assert!(matches!(s.click_icon_entry("/d/sub".to_string(), true, 1), ClickAction::Navigated(p) if p == "/d/sub"));
    assert_eq!(s.current_path, "/d/sub");
    assert_eq!(s.last_clicked_index, Some(1));
    assert_eq!(s.selected_paths, vec!["/d/sub"]);
    assert!(!s.toggle_selection("/x".to_string(), 4));
    assert!(s.toggle_selection("/x".to_string(), 5));
    assert_eq!(s.selected_paths, vec!["/d/sub"]);
    s.clear_selection();
    assert!(s.selected_paths.is_empty());
}

#[test]
fn tabs_get_fresh_ids_and_closing_moves_current() {
    let mut tabs: AppState<&str> = AppState::new();
    let a = tabs.new_tab_id();
    let b = tabs.new_tab_id();
    assert_eq!(a, TabId(0));
    assert_eq!(b, TabId(1));
    tabs.insert(a, "first");
    tabs.insert(b, "second");
    tabs.set_current_tab(Some(b));
    assert_eq!(tabs.get_current_tab(), Some(&"second"));
    assert_eq!(tabs.close_tab(b), Some("second"));
    assert_eq!(tabs.current_tab_id(), Some(a));
    assert_eq!(tabs.close_tab(b), None);
    assert_eq!(tabs.close_tab(a), Some("first"));
    assert_eq!(tabs.current_tab_id(), None);
    assert_eq!(tabs.get_current_tab(), None);
    assert_eq!(tabs.next_tab_id(), 2);
}

#[test]
fn closing_the_current_tab_picks_an_open_one() {
    let mut tabs: AppState<u8> = AppState::new();
    for k in 0..3u8 {
        let id = tabs.new_tab_id();
        tabs.insert(id, k);
    }
    tabs.set_current_tab(Some(TabId(1)));
    assert_eq!(tabs.close_tab(TabId(1)), Some(1));
    let now = tabs.current_tab_id().unwrap();
    assert!(now == TabId(0) || now == TabId(2));
    assert!(tabs.get(now).is_some());
    assert_eq!(tabs.get(TabId(1)), None);
}

#[test]
fn tab_ids_count_up_from_zero() {
    let mut tabs: AppState<u8> = AppState::new();
    for k in 0..20usize {
        assert_eq!(tabs.next_tab_id(), k);
        assert_eq!(tabs.new_tab_id(), TabId(k));
    }
    assert_eq!(tabs.next_tab_id(), 20);
}

#[test]
fn bookmarks() {
    assert_eq!(bookmarks_path_for(Some("/cfg".to_string())), "/cfg/wayland-file-manager/bookmarks.json");
    assert_eq!(bookmarks_path_for(None), "~/.config/wayland-file-manager/bookmarks.json");
    let d = default_bookmarks_for(None);
    assert_eq!(d.len(), 1);
    assert_eq!(d[0].name, "Home");
    assert_eq!(d[0].path, "/home");
    let stored = vec![Bookmark { name: "x".to_string(), path: "/x".to_string() }];
    let kept = bookmarks_or_default(Some(stored));
    assert_eq!(kept[0].path, "/x");
    assert_eq!(bookmarks_or_default(None)[0].name, "Home");
    let mut list = default_bookmarks_for(Some("/home/u".to_string()));
    let b = bookmark_for("/home/u/Music".to_string());
    assert_eq!(b.name, "Music");
    assert!(add_bookmark(&mut list, b.clone()));
    assert!(!add_bookmark(&mut list, b));
    assert_eq!(list.len(), 2);
    assert_eq!(bookmark_for("/".to_string()).name, "Unknown");
}

#[test]
fn editors() {
    assert_eq!(get_default_editor(), "nano");
    assert_eq!(editor_from_env(Some("vim".to_string()), Some("code".to_string())), Some("vim".to_string()));
    assert_eq!(editor_from_env(Some("".to_string()), Some("code".to_string())), Some("code".to_string()));
    assert_eq!(editor_from_env(None, Some("".to_string())), None);
    let avail = vec!["/usr/bin/kate".to_string()];
    assert_eq!(preferred_editor(None, &avail), Some("/usr/bin/kate".to_string()));
    assert_eq!(preferred_editor(Some("ed".to_string()), &avail), Some("ed".to_string()));
    assert_eq!(choose_editor(&vec![], &"nano".to_string()), "nano");
    assert_eq!(choose_editor(&avail, &"nano".to_string()), "/usr/bin/kate");
    assert_eq!(trim("  \t/usr/bin/vim\n"), "/usr/bin/vim");
    assert_eq!(editor_from_which_output(true, b"/usr/bin/nvim\n"), Some("/usr/bin/nvim".to_string()));
    assert_eq!(editor_from_which_output(true, b" \n"), None);
    assert_eq!(editor_from_which_output(false, b"/usr/bin/nvim\n"), None);
}

#[test]
fn open_checks() {
    assert_eq!(check_open("/a;rm", true, false, true), OpenCheck::InvalidCharacters);
    assert_eq!(check_open("/a", false, false, true), OpenCheck::Missing);
    assert_eq!(check_open("/a", true, true, true), OpenCheck::Directory);
    assert_eq!(check_open("/a", true, false, false), OpenCheck::EditorMissing);
    assert_eq!(check_open("/a.txt", true, false, true), OpenCheck::Launch);
    assert_eq!(check_open("/a/../etc/passwd", true, false, true), OpenCheck::InvalidCharacters);
    assert_eq!(check_open("/a/..", true, false, true), OpenCheck::InvalidCharacters);
    assert_eq!(check_open("/a/..b/c", true, false, true), OpenCheck::Launch);
}

#[test]
fn path_validation_before_opening() {
    for bad in ["/x&y", "/x|y", "/x;y", "/x$y", "/x`y", "../x", "/a/../b"] {
        assert!(matches!(validate_open_path(bad),
            Err(FileManagerError::Operation(m)) if m == "Path contains invalid characters"));
    }
    assert!(validate_open_path("/home/u/notes.txt").is_ok());
    assert!(validate_open_path("~/notes.txt").is_ok());
    assert!(validate_open_path("~").is_ok());
    assert!(validate_open_path("/a/~b").is_ok());
    assert!(matches!(validate_open_path("~root/.bashrc"),
        Err(FileManagerError::Operation(m)) if m == "Path contains invalid characters"));
    assert!(validate_open_path("/home/u/.hidden").is_ok());
}

#[test]
fn trash_and_rename_names() {
    assert_eq!(trash_dir(Some("/home/u".to_string())), "/home/u/.local/share/Trash/files");
    assert_eq!(trash_dir(None), "/tmp/.trash");
    assert_eq!(trash_destination("/t", "/docs/a.txt"), "/t/a.txt");
    assert_eq!(trash_destination("/t", "/"), "/t/unknown");
    assert_eq!(trash_collision_path("/t", "/docs/a.tar.gz", 2), "/t/a.tar.gz (2)");
    assert_eq!(trash_collision_path("/t", "/docs/README", 13), "/t/README (13)");
    assert_eq!(trash_collision_path("/t", "/docs/.bashrc", 1), "/t/.bashrc (1)");
    assert_eq!(trash_candidate("/t", "/docs/a.txt", 0), "/t/a.txt");
    assert_eq!(trash_candidate("/t", "/docs/a.txt", 3), "/t/a.txt (3)");
    assert!(matches!(rename_plan("/a/b.txt", "b.txt"), RenamePlan::Unchanged(p) if p == "/a/b.txt"));
    assert!(matches!(rename_plan("/a/b.txt", "c.txt"), RenamePlan::MoveTo(p) if p == "/a/c.txt"));
    assert!(matches!(rename_plan("b.txt", "c.txt"), RenamePlan::MoveTo(p) if p == "c.txt"));
}

#[test]
fn folder_name_candidates() {
    let u = untitled_folder_candidates();
    assert_eq!(u.len(), 101);
    assert_eq!(u[0], "Untitled Folder");
    assert_eq!(u[1], "Untitled Folder 1");
    assert_eq!(u[100], "Untitled Folder 100");
    let n = new_folder_candidates();
    assert_eq!(n.len(), 1000);
    assert_eq!(n[0], "New Folder");
    assert_eq!(n[1], "New Folder 2");
    assert_eq!(n[999], "New Folder 1000");
}

#[test]
fn candidate_names_are_all_different() {
    let u = untitled_folder_candidates();
    let distinct_u: std::collections::HashSet<&String> = u.iter().collect();
    assert_eq!(distinct_u.len(), u.len());
    let n = new_folder_candidates();
    let distinct_n: std::collections::HashSet<&String> = n.iter().collect();
    assert_eq!(distinct_n.len(), n.len());
    let t: Vec<String> = (1..200u64).map(|c| trash_collision_path("/t", "/d/a.txt", c)).collect();
    let distinct_t: std::collections::HashSet<&String> = t.iter().collect();
    assert_eq!(distinct_t.len(), t.len());
}

#[test]
fn drives_from_listings() {
    let listing = vec![
        ListedPath { path: "/mnt/usb".to_string(), is_dir: true },
        ListedPath { path: "/mnt/.snap".to_string(), is_dir: true },
        ListedPath { path: "/mnt/file".to_string(), is_dir: false },
    ];
    let mnt = drives_in(&listing, DriveSource::Mnt);
    assert_eq!(mnt, vec![("💾 usb".to_string(), "/mnt/usb".to_string())]);
    let media = drives_in(&listing, DriveSource::Media);
    assert_eq!(media.len(), 2);
    assert_eq!(media[1].0, "💌 .snap");
    assert_eq!(media_dir("/home/u"), "/media/u");
    assert_eq!(media_dir("/"), "/media/root");
    assert_eq!(run_media_dir("/home/u"), "/run/media/u");
    assert_eq!(run_media_dir("/"), "/run/media/root");
}

#[test]
fn view_columns() {
    let f = entry("a", false, 1023, 0, "txt");
    assert_eq!(size_column(&f), SizeColumn::Bytes(1023));
    assert_eq!(size_column_text(size_column(&f)), Some("1023 B".to_string()));
    assert_eq!(size_column(&entry("b", false, 1024, 0, "")), SizeColumn::Kilobytes(1024));
    assert_eq!(size_column(&entry("c", false, 5 * 1024 * 1024, 0, "")), SizeColumn::Megabytes(5 * 1024 * 1024));
    assert_eq!(size_column(&entry("d", false, 1 << 31, 0, "")), SizeColumn::Gigabytes(1 << 31));
    let dir = entry("e", true, 0, 0, "");
    assert_eq!(size_column_text(size_column(&dir)), Some("-".to_string()));
    assert_eq!(size_column_text(SizeColumn::Kilobytes(2048)), None);
    assert_eq!(type_label(&dir), "Folder");
    assert_eq!(type_label(&f), "txt");
    assert_eq!(truncated_display_name("short.txt"), "short.txt");
    assert_eq!(truncated_display_name("a_very_long_file_name.txt"), "a_very_long_...");
    assert_eq!(truncated_display_name("exactly15chars!"), "exactly15chars!");
}

#[test]
fn current_folder_fallbacks() {
    assert_eq!(current_dir_for(Some("/w".to_string()), Some("/home/u".to_string())), "/w");
    assert_eq!(current_dir_for(None, Some("/home/u".to_string())), "/home/u");
    assert_eq!(current_dir_for(None, None), "/home");
    assert_eq!(current_dir_or_home(Some("/w".to_string())), "/w");
}
