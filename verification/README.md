# wayland-file-manager

A GTK4 file manager for Wayland compositors, with tabs, bookmarks, list and
icon views, thumbnails and file operations. Its decisions are written in
Verus and proved against their contracts.

## Layout

- `src/` — the verified library.
  - `path.rs`, `text.rs`: path components, joining, lexical normalization,
    path equality; lowercase, search, ordering and number formatting of text.
  - `gui/types.rs`: the navigation state of a tab (history, back, forward,
    up, selection) and the laws of moving through history.
  - `gui/filesystem.rs`: which entries a view lists and in which stable order;
    the names tried for new folders, trash collisions and renames.
  - `gui/views.rs`, `gui/tabs.rs`, `gui/bookmarks.rs`, `gui/operations.rs`:
    view columns and clicks, the tab table, bookmarks, editor choice and the
    checks before launching one.
  - `vfs/`, `scanner/`, `watcher/`, `operations/`, `thumbnails/`,
    `logging.rs`, `error.rs`: directory entries, the checks before scanning,
    watching, copying and thumbnailing, log locations and the error type.
- `tests/` — tests of the library.
- `app/` — the program: the GTK window, file system access, process
  launching, JSON persistence, logging setup and file watching, calling the
  library for every decision.
