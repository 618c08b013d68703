//! Core data of the file manager's views: tab identifiers, sort and view
//! options, listed file entries, bookmarks and the navigation state of a tab.

use vstd::prelude::*;
use crate::path::{contains_path, opt_view, parent, parent_of, paths_distinct, paths_equal, same_path};

verus! {

/// Unique tab identifier
#[derive(Clone, Copy, Debug, PartialEq, Eq, Hash, Structural)]
pub struct TabId(pub usize);

/// Sort options
#[derive(Clone, Copy, Debug, PartialEq, Eq, Structural)]
pub enum SortBy {
    Name,
    Date,
    Size,
    Type,
}

/// View mode
#[derive(Clone, Copy, Debug, PartialEq, Eq, Structural)]
pub enum ViewMode {
    List,
    Icon,
}

/// File entry info: a listed file with the facts the views show and sort by.
/// `modified` counts whole seconds since the Unix epoch.
#[derive(Debug)]
pub struct FileEntry {
    pub name: String,
    pub path: String,
    pub is_dir: bool,
    pub size: u64,
    pub modified: u64,
    pub extension: String,
}

impl Clone for FileEntry {
    fn clone(&self) -> (r: Self)
        ensures
            r == *self,
    {
        FileEntry {
            name: self.name.clone(),
            path: self.path.clone(),
            is_dir: self.is_dir,
            size: self.size,
            modified: self.modified,
            extension: self.extension.clone(),
        }
    }
}

/// Bookmark entry
#[derive(Debug)]
pub struct Bookmark {
    pub name: String,
    pub path: String,
}

impl Clone for Bookmark {
    fn clone(&self) -> (r: Self)
        ensures
            r == *self,
    {
        Bookmark { name: self.name.clone(), path: self.path.clone() }
    }
}

} // verus!

verus! {

/// Clipboard for cut/copy operations
#[derive(Debug)]
pub struct Clipboard {
    pub files: Vec<String>,
    pub is_cut: bool,
}

/// The character sequences of a sequence of strings.
pub open spec fn string_views(s: Seq<String>) -> Seq<Seq<char>> {
    Seq::new(s.len(), |i: int| s[i]@)
}

/// Where a tab stands in its history: the visited paths, the index of the
/// current history slot, and the path shown.
pub struct NavPosition {
    pub history: Seq<Seq<char>>,
    pub index: int,
    pub current: Seq<char>,
}

/// A position whose index points into a non-empty history.
pub open spec fn position_ok(p: NavPosition) -> bool {
    p.history.len() > 0 && 0 <= p.index < p.history.len()
}

/// The history up to the current slot: the slots after it are dropped (an
/// index at or past the last slot drops nothing).
pub open spec fn kept_history(p: NavPosition) -> Seq<Seq<char>> {
    if p.index < p.history.len() - 1 {
        p.history.take(p.index + 1)
    } else {
        p.history
    }
}

/// Going to `target`: the history after the current slot is dropped,
/// `target` is appended unless the same path is already there, and the index
/// moves to the last slot.
pub open spec fn after_navigate(p: NavPosition, target: Seq<char>) -> NavPosition {
    let kept = kept_history(p);
    let history = if contains_path(kept, target) {
        kept
    } else {
        kept.push(target)
    };
    NavPosition { history, index: history.len() - 1, current: target }
}

/// Going back one slot, where there is one.
pub open spec fn after_back(p: NavPosition) -> NavPosition {
    if p.index > 0 {
        NavPosition { history: p.history, index: p.index - 1, current: p.history[p.index - 1] }
    } else {
        p
    }
}

/// Going forward one slot, where there is one.
pub open spec fn after_forward(p: NavPosition) -> NavPosition {
    if p.index < p.history.len() - 1 {
        NavPosition { history: p.history, index: p.index + 1, current: p.history[p.index + 1] }
    } else {
        p
    }
}

/// Opening a folder from the context menu: `target` is appended to the whole
/// history (no truncation, no check for repeats) and becomes current.
pub open spec fn after_open(p: NavPosition, target: Seq<char>) -> NavPosition {
    let history = p.history.push(target);
    NavPosition { history, index: history.len() - 1, current: target }
}

/// Navigation state per tab
#[derive(Debug)]
pub struct NavState {
    pub current_path: String,
    pub history: Vec<String>,
    pub history_index: usize,
    pub show_hidden: bool,
    pub search_query: String,
    pub sort_by: SortBy,
    pub view_mode: ViewMode,
    pub selected_paths: Vec<String>,
    pub last_clicked_index: Option<usize>,
    pub clipboard: Option<Clipboard>,
}

impl NavState {
    /// The state's place in its history.
    pub open spec fn position(&self) -> NavPosition {
        NavPosition {
            history: string_views(self.history@),
            index: self.history_index as int,
            current: self.current_path@,
        }
    }

    /// The history is not empty and its index points into it.
    pub open spec fn well_formed(&self) -> bool {
        position_ok(self.position())
    }

    /// Everything but the history position and the selection.
    pub open spec fn same_settings(&self, other: &NavState) -> bool {
        &&& self.show_hidden == other.show_hidden
        &&& self.search_query == other.search_query
        &&& self.sort_by == other.sort_by
        &&& self.view_mode == other.view_mode
        &&& self.clipboard == other.clipboard
    }

    /// Everything but the history position.
    pub open spec fn same_except_position(&self, other: &NavState) -> bool {
        &&& self.same_settings(other)
        &&& self.selected_paths == other.selected_paths
        &&& self.last_clicked_index == other.last_clicked_index
    }

    /// A fresh state at `path`: the history holds just `path`, hidden files
    /// are shown, no search, sorted by name, icon view, nothing selected.
    pub fn new(path: String) -> (s: Self)
        ensures
            s.current_path == path,
            s.history@ == seq![path],
            s.history_index == 0,
            s.show_hidden,
            s.search_query@ == Seq::<char>::empty(),
            s.sort_by == SortBy::Name,
            s.view_mode == ViewMode::Icon,
            s.selected_paths@ == Seq::<String>::empty(),
            s.last_clicked_index is None,
            s.clipboard is None,
            s.well_formed(),
    {
        let mut history: Vec<String> = Vec::new();
        history.push(path.clone());
        let s = NavState {
            current_path: path,
            history,
            history_index: 0,
            show_hidden: true,
            search_query: String::new(),
            sort_by: SortBy::Name,
            view_mode: ViewMode::Icon,
            selected_paths: Vec::new(),
            last_clicked_index: None,
            clipboard: None,
        };
        assert(s.history@ =~= seq![s.current_path]);
        s
    }

    fn history_contains(&self, path: &String) -> (r: bool)
        ensures
            r == contains_path(string_views(self.history@), path@),
    {
        let ghost views = string_views(self.history@);
        for i in 0..self.history.len()
            invariant
                views == string_views(self.history@),
                forall|j: int| 0 <= j < i ==> !same_path(#[trigger] views[j], path@),
        {
            if paths_equal(self.history[i].as_str(), path.as_str()) {
                assert(same_path(views[i as int], path@));
                return true;
            }
        }
        false
    }

    /// Navigate to `new_path` (see `after_navigate`).
    pub fn navigate_to(&mut self, new_path: String)
        requires
            old(self).history@.len() > 0,
        ensures
            final(self).position() == after_navigate(old(self).position(), new_path@),
            final(self).well_formed(),
            final(self).same_except_position(old(self)),
    {
        let ghost p = self.position();
        let index = self.history_index;
        let hist_len = self.history.len();
        if index < hist_len - 1 {
            self.history.truncate(index + 1);
        }
        assert(string_views(self.history@) =~= kept_history(p));
        if !self.history_contains(&new_path) {
            self.history.push(new_path.clone());
        }
        self.current_path = new_path;
        self.history_index = self.history.len() - 1;
        assert(self.position().history =~= after_navigate(p, self.current_path@).history);
    }

    /// Go back one history slot if there is one; returns the path gone to.
    pub fn go_back(&mut self) -> (r: Option<String>)
        requires
            old(self).history_index <= old(self).history@.len(),
        ensures
            final(self).position() == after_back(old(self).position()),
            final(self).history == old(self).history,
            old(self).well_formed() || old(self).history_index > 0 ==> final(self).well_formed(),
            final(self).same_except_position(old(self)),
            match r {
                Some(t) => old(self).history_index > 0 && t == final(self).current_path,
                None => old(self).history_index == 0,
            },
    {
        if self.history_index > 0 {
            let target = self.history[self.history_index - 1].clone();
            self.current_path = target.clone();
            self.history_index = self.history_index - 1;
            Some(target)
        } else {
            None
        }
    }

    /// Go forward one history slot if there is one; returns the path gone to.
    pub fn go_forward(&mut self) -> (r: Option<String>)
        requires
            old(self).history@.len() > 0,
        ensures
            final(self).position() == after_forward(old(self).position()),
            final(self).history == old(self).history,
            old(self).well_formed() ==> final(self).well_formed(),
            final(self).same_except_position(old(self)),
            match r {
                Some(t) => old(self).history_index < old(self).history@.len() - 1 && t
                    == final(self).current_path,
                None => old(self).history_index >= old(self).history@.len() - 1,
            },
    {
        let hist_len = self.history.len();
        if self.history_index < hist_len - 1 {
            let target = self.history[self.history_index + 1].clone();
            self.current_path = target.clone();
            self.history_index = self.history_index + 1;
            Some(target)
        } else {
            None
        }
    }

    /// Go to the parent of the current path, if it has one; returns it.
    pub fn go_up(&mut self) -> (r: Option<String>)
        requires
            old(self).history@.len() > 0,
        ensures
            opt_view(r) == parent_of(old(self).current_path@),
            match r {
                Some(t) => final(self).position() == after_navigate(old(self).position(), t@),
                None => final(self).position() == old(self).position(),
            },
            r is Some || old(self).well_formed() ==> final(self).well_formed(),
            final(self).same_except_position(old(self)),
    {
        let target = parent(self.current_path.as_str());
        match target {
            Some(t) => {
                self.navigate_to(t.clone());
                Some(t)
            },
            None => None,
        }
    }

    /// Open a folder from the context menu (see `after_open`).
    pub fn open_directory(&mut self, path: String)
        ensures
            final(self).position() == after_open(old(self).position(), path@),
            final(self).history@ == old(self).history@.push(path),
            final(self).history_index == final(self).history@.len() - 1,
            final(self).current_path == path,
            final(self).well_formed(),
            final(self).same_except_position(old(self)),
    {
        let ghost p = self.position();
        self.history.push(path.clone());
        self.current_path = path;
        self.history_index = self.history.len() - 1;
        assert(self.position().history =~= p.history.push(self.current_path@));
    }

    fn selection_contains(&self, path: &String) -> (r: bool)
        ensures
            r == contains_path(string_views(self.selected_paths@), path@),
    {
        let ghost views = string_views(self.selected_paths@);
        for i in 0..self.selected_paths.len()
            invariant
                views == string_views(self.selected_paths@),
                forall|j: int| 0 <= j < i ==> !same_path(#[trigger] views[j], path@),
        {
            if paths_equal(self.selected_paths[i].as_str(), path.as_str()) {
                assert(same_path(views[i as int], path@));
                return true;
            }
        }
        false
    }

    /// Select just `path` (a click in the list view).
    pub fn select_only(&mut self, path: String)
        ensures
            final(self).selected_paths@ == seq![path],
            final(self).same_settings(old(self)),
            final(self).position() == old(self).position(),
            final(self).history == old(self).history,
            final(self).last_clicked_index == old(self).last_clicked_index,
    {
        let mut v: Vec<String> = Vec::new();
        v.push(path);
        self.selected_paths = v;
    }

    /// Toggle `path` in the selection (a click in the icon view at `index`):
    /// a selected path leaves the selection (every entry naming it); another joins
    /// it at the end and `index` becomes the last clicked one. Returns whether
    /// the path was selected before.
    pub fn toggle_selection(&mut self, path: String, index: usize) -> (was_selected: bool)
        ensures
            was_selected == contains_path(string_views(old(self).selected_paths@), path@),
            was_selected ==> string_views(final(self).selected_paths@) == string_views(
                old(self).selected_paths@,
            ).filter(|q: Seq<char>| !same_path(q, path@)),
            was_selected ==> final(self).last_clicked_index == old(self).last_clicked_index,
            !was_selected ==> final(self).selected_paths@ == old(self).selected_paths@.push(path),
            !was_selected ==> final(self).last_clicked_index == Some(index),
            final(self).same_settings(old(self)),
            final(self).position() == old(self).position(),
            final(self).history == old(self).history,
    {
        if self.selection_contains(&path) {
            let ghost keep = |q: Seq<char>| !same_path(q, path@);
            let ghost old_views = string_views(self.selected_paths@);
            let mut kept: Vec<String> = Vec::new();
            proof {
                reveal(Seq::filter);
                assert(old_views.take(0) =~= Seq::<Seq<char>>::empty());
            }
            for i in 0..self.selected_paths.len()
                invariant
                    keep == (|q: Seq<char>| !same_path(q, path@)),
                    old_views == string_views(self.selected_paths@),
                    string_views(kept@) == old_views.take(i as int).filter(keep),
            {
                let ghost before = kept@;
                proof {
                    reveal(Seq::filter);
                    assert(old_views.take(i + 1).drop_last() =~= old_views.take(i as int));
                }
                if !paths_equal(self.selected_paths[i].as_str(), path.as_str()) {
                    kept.push(self.selected_paths[i].clone());
                    assert(string_views(kept@) =~= string_views(before).push(old_views[i as int]));
                }
            }
            assert(old_views.take(old_views.len() as int) =~= old_views);
            self.selected_paths = kept;
            true
        } else {
            self.selected_paths.push(path);
            self.last_clicked_index = Some(index);
            false
        }
    }

    /// Clear the selection.
    pub fn clear_selection(&mut self)
        ensures
            final(self).selected_paths@ == Seq::<String>::empty(),
            final(self).same_settings(old(self)),
            final(self).position() == old(self).position(),
            final(self).history == old(self).history,
            final(self).last_clicked_index == old(self).last_clicked_index,
    {
        self.selected_paths = Vec::new();
    }
}

} // verus!

verus! {

/// At a valid position the kept history is the history up to the current slot.
proof fn lemma_kept_is_prefix(p: NavPosition)
    requires
        position_ok(p),
    ensures
        kept_history(p) == p.history.take(p.index + 1),
{
    if p.index >= p.history.len() - 1 {
        assert(p.history.take(p.index + 1) =~= p.history);
    }
}

/// Navigating lands on the target, at the last history slot, and keeps the
/// history up to the slot it left from.
pub proof fn lemma_navigate_lands_on_target(p: NavPosition, target: Seq<char>)
    requires
        position_ok(p),
    ensures
        position_ok(after_navigate(p, target)),
        after_navigate(p, target).current == target,
        after_navigate(p, target).index == after_navigate(p, target).history.len() - 1,
        contains_path(after_navigate(p, target).history, target),
        after_navigate(p, target).history.take(p.index + 1) == p.history.take(p.index + 1),
{
    lemma_kept_is_prefix(p);
    let kept = p.history.take(p.index + 1);
    if !contains_path(kept, target) {
        let h = kept.push(target);
        assert(h[h.len() - 1] == target);
        assert(same_path(h[h.len() - 1], target));
        assert(h.take(p.index + 1) =~= kept);
    } else {
        assert(kept.take(p.index + 1) =~= kept);
    }
}

/// A history in which no path repeats keeps none repeating after navigating.
pub proof fn lemma_navigate_keeps_history_distinct(p: NavPosition, target: Seq<char>)
    requires
        position_ok(p),
        paths_distinct(p.history),
    ensures
        paths_distinct(after_navigate(p, target).history),
{
    lemma_kept_is_prefix(p);
    let kept = p.history.take(p.index + 1);
    assert(paths_distinct(kept)) by {
        assert forall|i: int, j: int| 0 <= i < j < kept.len() implies !same_path(
            #[trigger] kept[i],
            #[trigger] kept[j],
        ) by {
            assert(kept[i] == p.history[i] && kept[j] == p.history[j]);
        }
    }
    if !contains_path(kept, target) {
        let h = kept.push(target);
        assert forall|i: int, j: int| 0 <= i < j < h.len() implies !same_path(
            #[trigger] h[i],
            #[trigger] h[j],
        ) by {
            if j == h.len() - 1 {
                assert(h[i] == kept[i]);
                assert(h[j] == target);
            } else {
                assert(h[i] == kept[i] && h[j] == kept[j]);
            }
        }
    }
}

/// Navigating twice to the same path is the same as navigating once.
pub proof fn lemma_navigate_twice_is_once(p: NavPosition, target: Seq<char>)
    requires
        position_ok(p),
    ensures
        after_navigate(after_navigate(p, target), target) == after_navigate(p, target),
{
    let q = after_navigate(p, target);
    lemma_navigate_lands_on_target(p, target);
    assert(q.history.take(q.index + 1) =~= q.history);
}

/// Right after navigating there is nothing to go forward to.
pub proof fn lemma_no_forward_after_navigate(p: NavPosition, target: Seq<char>)
    requires
        position_ok(p),
    ensures
        after_forward(after_navigate(p, target)) == after_navigate(p, target),
{
    lemma_navigate_lands_on_target(p, target);
}

/// Navigating to a path not in the history up to the current slot, then
/// going back, returns to the slot left from.
pub proof fn lemma_back_after_navigate(p: NavPosition, target: Seq<char>)
    requires
        position_ok(p),
        !contains_path(p.history.take(p.index + 1), target),
    ensures
        after_back(after_navigate(p, target)).index == p.index,
        after_back(after_navigate(p, target)).current == p.history[p.index],
{
    lemma_kept_is_prefix(p);
}

/// Going back and then forward restores a position whose current path is the
/// one in its history slot.
pub proof fn lemma_back_then_forward(p: NavPosition)
    requires
        position_ok(p),
        p.index > 0,
        p.current == p.history[p.index],
    ensures
        after_forward(after_back(p)) == p,
{
}

/// Going forward and then back restores a position whose current path is the
/// one in its history slot.
pub proof fn lemma_forward_then_back(p: NavPosition)
    requires
        position_ok(p),
        p.index < p.history.len() - 1,
        p.current == p.history[p.index],
    ensures
        after_back(after_forward(p)) == p,
{
}

/// Opening a folder from the context menu appends it to the whole history
/// and moves to that last slot, which holds the opened folder.
pub proof fn lemma_open_lands_on_last_slot(p: NavPosition, target: Seq<char>)
    ensures
        after_open(p, target).history == p.history.push(target),
        after_open(p, target).index == p.history.len(),
        after_open(p, target).index == after_open(p, target).history.len() - 1,
        after_open(p, target).history[after_open(p, target).index] == target,
        after_open(p, target).current == target,
{
}

/// Every move keeps the index inside a non-empty history.
pub proof fn lemma_moves_keep_position_ok(p: NavPosition, target: Seq<char>)
    requires
        position_ok(p),
    ensures
        position_ok(after_navigate(p, target)),
        position_ok(after_back(p)),
        position_ok(after_forward(p)),
        position_ok(after_open(p, target)),
{
    lemma_navigate_lands_on_target(p, target);
}

} // verus!
