//! The file manager's view logic: navigation state, listing order, bookmarks,
//! tabs and the decisions behind file operations.

pub mod filesystem;
pub mod types;

pub use filesystem::filter_and_sort;
pub use types::{Bookmark, FileEntry, SortBy, TabId, ViewMode};
pub mod views;
pub mod tabs;
pub mod bookmarks;
pub mod operations;
pub mod app_window;
