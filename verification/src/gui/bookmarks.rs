//! Bookmarks: where they are stored, the default list, and adding one.

use vstd::prelude::*;
use crate::gui::types::Bookmark;
use crate::path::{file_name, file_name_of, join, join_spec, paths_equal, same_path};
use crate::places::{config_dir, home_dir};

verus! {

/// The bookmarks file under a configuration folder (`~/.config` where there
/// is none): `wayland-file-manager/bookmarks.json`.
pub open spec fn bookmarks_path_in(config: Option<Seq<char>>) -> Seq<char> {
    let base = match config {
        Some(c) => c,
        None => "~/.config"@,
    };
    join_spec(join_spec(base, "wayland-file-manager"@), "bookmarks.json"@)
}

/// The bookmarks file for a given configuration folder (see `bookmarks_path_in`).
pub fn bookmarks_path_for(config: Option<String>) -> (r: String)
    ensures
        r@ == bookmarks_path_in(match config {
            Some(c) => Some(c@),
            None => None,
        }),
{
    let base = match config {
        Some(c) => c,
        None => String::from_str("~/.config"),
    };
    let dir = join(base.as_str(), "wayland-file-manager");
    join(dir.as_str(), "bookmarks.json")
}

/// Get bookmarks file path: under the user's configuration folder.
pub fn get_bookmarks_path() -> (r: String)
    ensures
        exists|config: Option<Seq<char>>| r@ == bookmarks_path_in(config),
{
    let config = config_dir();
    bookmarks_path_for(config)
}

/// The bookmarks shown when none are stored: `Home`, at the home folder
/// (`/home` where there is none).
pub fn default_bookmarks_for(home: Option<String>) -> (r: Vec<Bookmark>)
    ensures
        r@.len() == 1,
        r@[0].name@ == "Home"@,
        r@[0].path@ == match home {
            Some(h) => h@,
            None => "/home"@,
        },
{
    let path = match home {
        Some(h) => h,
        None => String::from_str("/home"),
    };
    let mut v: Vec<Bookmark> = Vec::new();
    v.push(Bookmark { name: String::from_str("Home"), path });
    v
}

/// The stored bookmarks when they could be read, else the default list for
/// the user's home folder.
pub fn bookmarks_or_default(stored: Option<Vec<Bookmark>>) -> (r: Vec<Bookmark>)
    ensures
        stored is Some ==> r == stored.unwrap(),
        stored is None ==> r@.len() == 1 && r@[0].name@ == "Home"@,
{
    match stored {
        Some(b) => b,
        None => default_bookmarks_for(home_dir()),
    }
}

/// A bookmark for a folder, named by the folder's file name (`Unknown` where
/// it has none).
pub fn bookmark_for(path: String) -> (b: Bookmark)
    ensures
        b.path == path,
        b.name@ == match file_name_of(path@) {
            Some(n) => n,
            None => "Unknown"@,
        },
{
    let name = match file_name(path.as_str()) {
        Some(n) => n,
        None => String::from_str("Unknown"),
    };
    Bookmark { name, path }
}

/// Some bookmark in the list is at `path` (the same path, see `same_path`).
pub open spec fn has_path(bookmarks: Seq<Bookmark>, path: Seq<char>) -> bool {
    exists|i: int| 0 <= i < bookmarks.len() && same_path((#[trigger] bookmarks[i]).path@, path)
}

/// No two bookmarks are at the same path.
pub open spec fn bookmark_paths_distinct(bookmarks: Seq<Bookmark>) -> bool {
    forall|i: int, j: int|
        0 <= i < j < bookmarks.len() ==> !same_path(
            (#[trigger] bookmarks[i]).path@,
            (#[trigger] bookmarks[j]).path@,
        )
}

/// The list after adding `b`: unchanged when a bookmark is already at its
/// path, else `b` appended.
pub open spec fn after_add(bookmarks: Seq<Bookmark>, b: Bookmark) -> Seq<Bookmark> {
    if has_path(bookmarks, b.path@) {
        bookmarks
    } else {
        bookmarks.push(b)
    }
}

/// Add a bookmark unless one is already at its path; returns whether it was
/// added.
pub fn add_bookmark(bookmarks: &mut Vec<Bookmark>, b: Bookmark) -> (added: bool)
    ensures
        added == !has_path(old(bookmarks)@, b.path@),
        final(bookmarks)@ == after_add(old(bookmarks)@, b),
{
    let mut i: usize = 0;
    while i < bookmarks.len()
        invariant
            i <= bookmarks@.len(),
            forall|j: int| 0 <= j < i ==> !same_path((#[trigger] bookmarks@[j]).path@, b.path@),
        decreases bookmarks@.len() - i,
    {
        if paths_equal(bookmarks[i].path.as_str(), b.path.as_str()) {
            assert(same_path(bookmarks@[i as int].path@, b.path@));
            return false;
        }
        i += 1;
    }
    bookmarks.push(b);
    true
}

/// Adding keeps the bookmarks' paths distinct, the new path is then
/// bookmarked, and adding the same bookmark again changes nothing.
pub proof fn lemma_add_bookmark_laws(bookmarks: Seq<Bookmark>, b: Bookmark)
    requires
        bookmark_paths_distinct(bookmarks),
    ensures
        bookmark_paths_distinct(after_add(bookmarks, b)),
        has_path(after_add(bookmarks, b), b.path@),
        after_add(after_add(bookmarks, b), b) == after_add(bookmarks, b),
        forall|i: int| 0 <= i < bookmarks.len() ==> after_add(bookmarks, b)[i] == bookmarks[i],
{
    let r = after_add(bookmarks, b);
    if !has_path(bookmarks, b.path@) {
        assert(r[bookmarks.len() as int] == b);
        assert forall|i: int, j: int| 0 <= i < j < r.len() implies !same_path(
            (#[trigger] r[i]).path@,
            (#[trigger] r[j]).path@,
        ) by {
            if j == bookmarks.len() {
                assert(r[i] == bookmarks[i]);
                if same_path(r[i].path@, r[j].path@) {
                    assert(same_path(bookmarks[i].path@, b.path@));
                }
            } else {
                assert(r[i] == bookmarks[i] && r[j] == bookmarks[j]);
            }
        }
    }
    assert(has_path(r, b.path@)) by {
        if !has_path(bookmarks, b.path@) {
            assert(same_path(r[bookmarks.len() as int].path@, b.path@));
        }
    }
}

} // verus!
