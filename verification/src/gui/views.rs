//! What the list and icon views show for an entry and what a click on one
//! does to the tab's state.

use vstd::prelude::*;
use vstd::string::StringSliceAdditionalSpecFns;
use vstd::utf8::{decode_utf8, encode_utf8, is_char_boundary};
use crate::gui::types::{after_navigate, FileEntry, NavState, string_views};
use crate::path::{contains_path, same_path};
use crate::text::decimal_string;
use crate::text::digits;

verus! {

broadcast use vstd::string::group_string_axioms;

/// How the size column of the list view shows an entry.
#[derive(Clone, Copy, Debug, PartialEq, Eq, Structural)]
pub enum SizeColumn {
    /// A folder: `-`.
    Folder,
    /// Under 1 KiB: the byte count, as `<n> B`.
    Bytes(u64),
    /// Under 1 MiB: kibibytes with one decimal, as `<x> KB`.
    Kilobytes(u64),
    /// Under 1 GiB: mebibytes with one decimal, as `<x> MB`.
    Megabytes(u64),
    /// Larger: gibibytes with one decimal, as `<x> GB`.
    Gigabytes(u64),
}

/// The unit the list view shows an entry's size in.
pub fn size_column(entry: &FileEntry) -> (c: SizeColumn)
    ensures
        entry.is_dir ==> c == SizeColumn::Folder,
        !entry.is_dir && entry.size < 1024 ==> c == SizeColumn::Bytes(entry.size),
        !entry.is_dir && 1024 <= entry.size < 1024 * 1024 ==> c == SizeColumn::Kilobytes(entry.size),
        !entry.is_dir && 1024 * 1024 <= entry.size < 1024 * 1024 * 1024 ==> c
            == SizeColumn::Megabytes(entry.size),
        !entry.is_dir && 1024 * 1024 * 1024 <= entry.size ==> c == SizeColumn::Gigabytes(entry.size),
{
    if entry.is_dir {
        SizeColumn::Folder
    } else if entry.size < 1024 {
        SizeColumn::Bytes(entry.size)
    } else if entry.size < 1024 * 1024 {
        SizeColumn::Kilobytes(entry.size)
    } else if entry.size < 1024 * 1024 * 1024 {
        SizeColumn::Megabytes(entry.size)
    } else {
        SizeColumn::Gigabytes(entry.size)
    }
}

/// The text of the size column where it needs no fractional number: `-` for a
/// folder and `<n> B` under 1 KiB; none for the larger units.
pub fn size_column_text(c: SizeColumn) -> (r: Option<String>)
    ensures
        match c {
            SizeColumn::Folder => r matches Some(s) && s@ == "-"@,
            SizeColumn::Bytes(n) => r matches Some(s) && s@ == digits(n as nat, 10) + " B"@,
            _ => r is None,
        },
{
    match c {
        SizeColumn::Folder => Some(String::from_str("-")),
        SizeColumn::Bytes(n) => Some(decimal_string(n).concat(" B")),
        _ => None,
    }
}

/// The type column: `Folder` for a folder, the extension otherwise.
pub fn type_label(entry: &FileEntry) -> (r: String)
    ensures
        r@ == (if entry.is_dir { "Folder"@ } else { entry.extension@ }),
{
    if entry.is_dir {
        String::from_str("Folder")
    } else {
        entry.extension.clone()
    }
}

/// A name too long for the icon grid: more than fifteen bytes in UTF-8.
pub open spec fn is_long_name(name: Seq<char>) -> bool {
    encode_utf8(name).len() > 15
}

/// The icon grid's label for a name: names of at most fifteen bytes as they
/// are, longer ones cut to their first twelve bytes followed by `...`.
pub open spec fn grid_label(name: Seq<char>) -> Seq<char> {
    if is_long_name(name) {
        decode_utf8(encode_utf8(name).subrange(0, 12)) + "..."@
    } else {
        name
    }
}

/// Truncate long filenames for the icon grid (see `grid_label`). The cut is
/// made on bytes, so a long name must have a character boundary at byte
/// twelve.
pub fn truncated_display_name(name: &str) -> (r: String)
    requires
        is_long_name(name@) ==> is_char_boundary(encode_utf8(name@), 12),
    ensures
        r@ == grid_label(name@),
{
    broadcast use vstd::utf8::group_utf8_lib;
    let byte_len = name.as_bytes().len();
    if byte_len > 15 {
        let (head, _tail) = name.split_at(12);
        proof {
            vstd::utf8::encode_utf8_decode_utf8(head@);
            assert(head.spec_bytes() == encode_utf8(head@));
            assert(encode_utf8(head@) == encode_utf8(name@).subrange(0, 12));
            assert(is_long_name(name@));
        }
        String::from_str(head).concat("...")
    } else {
        name.to_owned()
    }
}

/// What the view does after a click on an entry.
#[derive(Debug)]
pub enum ClickAction {
    /// The tab went to this folder; list it and rebuild the view.
    Navigated(String),
    /// Open this file with the editor.
    OpenFile(String),
    /// Nothing more.
    Nothing,
}

impl NavState {
    /// A click on an entry of the list view: the entry becomes the only
    /// selection; a folder is navigated to, a file is to be opened.
    pub fn click_list_entry(&mut self, path: String, is_dir: bool) -> (a: ClickAction)
        requires
            is_dir ==> old(self).history@.len() > 0,
        ensures
            is_dir || old(self).well_formed() ==> final(self).well_formed(),
            final(self).selected_paths@ == seq![path],
            final(self).same_settings(old(self)),
            final(self).last_clicked_index == old(self).last_clicked_index,
            is_dir ==> (a matches ClickAction::Navigated(p) && p == path),
            is_dir ==> final(self).position() == after_navigate(old(self).position(), path@),
            !is_dir ==> (a matches ClickAction::OpenFile(p) && p == path),
            !is_dir ==> final(self).position() == old(self).position(),
    {
        self.select_only(path.clone());
        if is_dir {
            self.navigate_to(path.clone());
            ClickAction::Navigated(path)
        } else {
            ClickAction::OpenFile(path)
        }
    }

    /// A click on an entry of the icon view at grid position `index`: the
    /// entry's selection is toggled; an entry that was not selected before is
    /// navigated to (a folder) or to be opened (a file); re-clicking a
    /// selected entry only unselects it.
    pub fn click_icon_entry(&mut self, path: String, is_dir: bool, index: usize) -> (a: ClickAction)
        requires
            is_dir && !contains_path(string_views(old(self).selected_paths@), path@)
                ==> old(self).history@.len() > 0,
        ensures
            old(self).well_formed() ==> final(self).well_formed(),
            is_dir && !contains_path(string_views(old(self).selected_paths@), path@)
                ==> final(self).well_formed(),
            final(self).same_settings(old(self)),
            ({
                let was = contains_path(string_views(old(self).selected_paths@), path@);
                &&& was ==> a is Nothing && final(self).position() == old(self).position()
                &&& was ==> string_views(final(self).selected_paths@) == string_views(
                    old(self).selected_paths@,
                ).filter(|q: Seq<char>| !same_path(q, path@))
                &&& !was ==> final(self).selected_paths@ == old(self).selected_paths@.push(path)
                &&& was ==> final(self).last_clicked_index == old(self).last_clicked_index
                &&& !was ==> final(self).last_clicked_index == Some(index)
                &&& !was && is_dir ==> (a matches ClickAction::Navigated(p) && p == path
                    && final(self).position() == after_navigate(old(self).position(), path@))
                &&& !was && !is_dir ==> (a matches ClickAction::OpenFile(p) && p == path
                    && final(self).position() == old(self).position())
            }),
    {
        let was_selected = self.toggle_selection(path.clone(), index);
        if was_selected {
            ClickAction::Nothing
        } else if is_dir {
            self.navigate_to(path.clone());
            ClickAction::Navigated(path)
        } else {
            ClickAction::OpenFile(path)
        }
    }
}

} // verus!
