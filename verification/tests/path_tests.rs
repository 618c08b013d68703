use wayland_file_manager::logging::{log_directory_for, log_file_path_for};
use wayland_file_manager::path::{
    extension, extension_of, file_name, file_stem, join, name_extension, normalize_lexical, stem_of,
};
use wayland_file_manager::text::decimal_string;

#[test]
fn file_names_follow_path_components() {
    assert_eq!(file_name("/a/b.txt"), Some("b.txt".to_string()));
    assert_eq!(file_name("/a/b/"), Some("b".to_string()));
    assert_eq!(file_name("/a/b/."), Some("b".to_string()));
    assert_eq!(file_name("a//b"), Some("b".to_string()));
    assert_eq!(file_name("/a/.."), None);
    assert_eq!(file_name("/"), None);
    assert_eq!(file_name(""), None);
    assert_eq!(file_name("."), None);
}

#[test]
fn extensions_and_stems() {
    assert_eq!(name_extension("a.tar.gz"), Some("gz".to_string()));
    assert_eq!(name_extension(".bashrc"), None);
    assert_eq!(name_extension("noext"), None);
    assert_eq!(name_extension("trailing."), Some("".to_string()));
    assert_eq!(extension_of(".bashrc"), "");
    assert_eq!(stem_of("a.tar.gz"), "a.tar");
    assert_eq!(stem_of(".bashrc"), ".bashrc");
    assert_eq!(extension("/x/y.png"), Some("png".to_string()));
    assert_eq!(file_stem("/x/y.png"), Some("y".to_string()));
    assert_eq!(file_stem("/"), None);
}

#[test]
fn joining_paths() {
    assert_eq!(join("/a", "b"), "/a/b");
    assert_eq!(join("/a/", "b"), "/a/b");
    assert_eq!(join("", "b"), "b");
    assert_eq!(join("/a", "/b"), "/b");
    assert_eq!(join("a", ""), "a/");
}

#[test]
fn lexical_normalization() {
    assert_eq!(normalize_lexical("/a/b/../c/./d"), "/a/c/d");
    assert_eq!(normalize_lexical("a/../../b"), "../b");
    assert_eq!(normalize_lexical("/../a"), "/a");
    assert_eq!(normalize_lexical("/nonexistent/../../x"), "/x");
    assert_eq!(normalize_lexical("../a"), "../a");
    assert_eq!(normalize_lexical("../../a/b/.."), "../../a");
    assert_eq!(normalize_lexical("/a/.."), "/");
    assert_eq!(normalize_lexical("./"), "");
    let once = normalize_lexical("/x/./y/../../z//w/..");
    assert_eq!(once, "/z");
    assert_eq!(normalize_lexical(&once), once);
}

#[test]
fn decimal_numbers() {
    assert_eq!(decimal_string(0), "0");
    assert_eq!(decimal_string(42), "42");
    assert_eq!(decimal_string(u64::MAX), u64::MAX.to_string());
}

#[test]
fn log_locations() {
    assert_eq!(log_directory_for(Some("/xdg".to_string()), Some("/h".to_string())), "/xdg/wayland-file-manager/logs");
    assert_eq!(log_directory_for(None, Some("/h".to_string())), "/h/.local/share/wayland-file-manager/logs");
    assert_eq!(log_directory_for(None, None), "/tmp/wayland-file-manager/logs");
    assert_eq!(log_file_path_for(None, None), "/tmp/wayland-file-manager/logs/wayland-file-manager.log");
}
