//! File system watching: the events the file manager reports and the set of
//! watched paths.

use vstd::prelude::*;
use crate::error::FileManagerError;
use crate::gui::types::string_views;
use crate::path::{contains_path, paths_distinct, paths_equal, same_path};

verus! {

/// Watcher events
#[derive(Debug)]
pub enum WatcherEvent {
    Created(String),
    Modified(String),
    Deleted(String),
    Renamed(String, String),
}

impl Clone for WatcherEvent {
    fn clone(&self) -> (r: Self)
        ensures
            r == *self,
    {
        match self {
            WatcherEvent::Created(p) => WatcherEvent::Created(p.clone()),
            WatcherEvent::Modified(p) => WatcherEvent::Modified(p.clone()),
            WatcherEvent::Deleted(p) => WatcherEvent::Deleted(p.clone()),
            WatcherEvent::Renamed(a, b) => WatcherEvent::Renamed(a.clone(), b.clone()),
        }
    }
}

/// The kind of a file system notification, as far as the watcher tells
/// kinds apart.
#[derive(Debug, Clone, Copy, PartialEq, Eq, Structural)]
pub enum NotificationKind {
    Create,
    Modify,
    Remove,
    Other,
}

/// The event a notification of kind `kind` about `path` becomes, if any.
pub open spec fn event_for(kind: NotificationKind, path: String) -> Option<WatcherEvent> {
    match kind {
        NotificationKind::Create => Some(WatcherEvent::Created(path)),
        NotificationKind::Modify => Some(WatcherEvent::Modified(path)),
        NotificationKind::Remove => Some(WatcherEvent::Deleted(path)),
        NotificationKind::Other => None,
    }
}

/// The events reported for one notification: one per path, in order, for
/// creations, modifications and removals; none for other kinds.
pub fn events_for(kind: NotificationKind, paths: &Vec<String>) -> (events: Vec<WatcherEvent>)
    ensures
        kind == NotificationKind::Other ==> events@.len() == 0,
        kind != NotificationKind::Other ==> events@.len() == paths@.len() && forall|i: int|
            0 <= i < paths@.len() ==> Some(#[trigger] events@[i]) == event_for(kind, paths@[i]),
{
    let mut events: Vec<WatcherEvent> = Vec::new();
    if kind == NotificationKind::Other {
        return events;
    }
    for i in 0..paths.len()
        invariant
            kind != NotificationKind::Other,
            events@.len() == i,
            forall|j: int| 0 <= j < i ==> Some(#[trigger] events@[j]) == event_for(kind, paths@[j]),
    {
        let p = paths[i].clone();
        let e = match kind {
            NotificationKind::Create => WatcherEvent::Created(p),
            NotificationKind::Modify => WatcherEvent::Modified(p),
            _ => WatcherEvent::Deleted(p),
        };
        events.push(e);
    }
    events
}

/// The check before watching `path`: it must exist.
pub fn check_watch_target(path: &str, exists: bool) -> (r: Result<(), FileManagerError>)
    ensures
        !exists ==> (r matches Err(FileManagerError::NotFound(p)) && p@ == path@),
        exists ==> r is Ok,
{
    if !exists {
        return Err(FileManagerError::NotFound(path.to_owned()));
    }
    Ok(())
}

/// The set of watched paths, each path held once (paths compared as `Path`
/// compares them, see `same_path`).
#[derive(Debug)]
pub struct WatchedPaths {
    paths: Vec<String>,
}

impl WatchedPaths {
    /// The watched paths, in the order they were first watched.
    pub closed spec fn paths(&self) -> Seq<Seq<char>> {
        string_views(self.paths@)
    }

    /// No path is held twice.
    #[verifier::type_invariant]
    spec fn no_path_twice(&self) -> bool {
        paths_distinct(self.paths())
    }

    pub fn new() -> (w: Self)
        ensures
            w.paths() == Seq::<Seq<char>>::empty(),
    {
        let w = WatchedPaths { paths: Vec::new() };
        assert(w.paths() =~= Seq::<Seq<char>>::empty());
        w
    }

    fn position(&self, path: &String) -> (r: Option<usize>)
        ensures
            match r {
                Some(i) => i < self.paths().len() && same_path(self.paths()[i as int], path@),
                None => !contains_path(self.paths(), path@),
            },
    {
        for i in 0..self.paths.len()
            invariant
                forall|j: int| 0 <= j < i ==> !same_path(#[trigger] self.paths()[j], path@),
        {
            if paths_equal(self.paths[i].as_str(), path.as_str()) {
                assert(same_path(self.paths()[i as int], path@));
                return Some(i);
            }
        }
        None
    }

    /// Whether `path` is watched.
    pub fn contains(&self, path: &String) -> (r: bool)
        ensures
            r == contains_path(self.paths(), path@),
    {
        self.position(path).is_some()
    }

    /// Record `path` as watched (once).
    pub fn insert(&mut self, path: String)
        ensures
            paths_distinct(final(self).paths()),
            contains_path(final(self).paths(), path@),
            final(self).paths() == (if contains_path(old(self).paths(), path@) {
                old(self).paths()
            } else {
                old(self).paths().push(path@)
            }),
    {
        proof {
            use_type_invariant(&*self);
        }
        if self.position(&path).is_none() {
            let ghost before = self.paths();
            let mut v: Vec<String> = Vec::new();
            std::mem::swap(&mut v, &mut self.paths);
            assert(string_views(v@) == before);
            v.push(path);
            let ghost vs = string_views(v@);
            assert(vs =~= before.push(v@.last()@));
            assert forall|i: int, j: int| 0 <= i < j < vs.len() implies !same_path(
                #[trigger] vs[i],
                #[trigger] vs[j],
            ) by {
                if j == vs.len() - 1 {
                    assert(before[i] == vs[i]);
                    if same_path(vs[i], vs[j]) {
                        assert(same_path(before[i], v@.last()@));
                    }
                } else {
                    assert(before[i] == vs[i] && before[j] == vs[j]);
                }
            }
            self.paths = v;
            assert(self.paths() == vs);
            assert(same_path(self.paths()[self.paths().len() - 1], self.paths@.last()@));
        }
    }

    /// Stop recording `path` as watched: the one watched path that is the same
    /// path leaves, the others keep their order.
    pub fn remove(&mut self, path: &String)
        ensures
            paths_distinct(final(self).paths()),
            contains_path(old(self).paths(), path@) ==> exists|i: int|
                0 <= i < old(self).paths().len() && same_path(old(self).paths()[i], path@)
                    && final(self).paths() == old(self).paths().remove(i),
            !contains_path(old(self).paths(), path@) ==> final(self).paths() == old(self).paths(),
            !contains_path(final(self).paths(), path@),
            forall|q: Seq<char>|
                !same_path(q, path@) ==> (contains_path(final(self).paths(), q) <==> contains_path(
                    old(self).paths(),
                    q,
                )),
    {
        proof {
            use_type_invariant(&*self);
        }
        match self.position(path) {
            Some(i) => {
                let ghost before = self.paths();
                let mut v: Vec<String> = Vec::new();
                std::mem::swap(&mut v, &mut self.paths);
                assert(string_views(v@) == before);
                v.remove(i);
                assert(string_views(v@) =~= before.remove(i as int));
                assert forall|a: int, b: int| 0 <= a < b < string_views(v@).len() implies !same_path(
                    #[trigger] string_views(v@)[a],
                    #[trigger] string_views(v@)[b],
                ) by {
                    let a0 = if a < i { a } else { a + 1 };
                    let b0 = if b < i { b } else { b + 1 };
                    assert(string_views(v@)[a] == before[a0] && string_views(v@)[b] == before[b0]);
                }
                proof {
                    assert forall|q: Seq<char>| !same_path(q, path@) implies (contains_path(
                        string_views(v@),
                        q,
                    ) <==> contains_path(before, q)) by {
                        if contains_path(before, q) {
                            let k = choose|k: int| 0 <= k < before.len() && same_path(before[k], q);
                            if k == i {
                                assert(same_path(before[i as int], path@));
                                assert(same_path(q, path@));
                            }
                            let k1 = if k < i { k } else { k - 1 };
                            assert(string_views(v@)[k1] == before[k]);
                        }
                        if contains_path(string_views(v@), q) {
                            let k = choose|k: int| 0 <= k < string_views(v@).len() && same_path(string_views(v@)[k], q);
                            let k0 = if k < i { k } else { k + 1 };
                            assert(before[k0] == string_views(v@)[k]);
                        }
                    }
                    if contains_path(string_views(v@), path@) {
                        let k = choose|k: int| 0 <= k < string_views(v@).len() && same_path(string_views(v@)[k], path@);
                        let k0 = if k < i { k } else { k + 1 };
                        assert(before[k0] == string_views(v@)[k]);
                        assert(same_path(before[k0], before[i as int]));
                        if k0 < i {
                            assert(!same_path(before[k0], before[i as int]));
                        } else {
                            assert(!same_path(before[i as int], before[k0]));
                        }
                    }
                }
                self.paths = v;
            },
            None => {},
        }
    }
}

} // verus!
