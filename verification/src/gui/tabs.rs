//! Tab bookkeeping: the open tabs by id, the current tab, and the counter
//! that hands out tab identifiers.

use vstd::prelude::*;
use std::collections::HashMap;
use crate::gui::types::TabId;
use vstd::std_specs::hash::spec_keys_iter;
use vstd::std_specs::iter::IteratorSpec;

verus! {

broadcast use vstd::std_specs::hash::group_hash_axioms;

/// Application state holding all tabs (each tab's data is a `T`), keyed by
/// the number of the tab's id.
pub struct AppState<T> {
    tabs: HashMap<usize, T>,
    current_tab_id: Option<TabId>,
    next_id: usize,
}

impl<T> AppState<T> {
    /// The open tabs, by the number of their id.
    pub closed spec fn tabs(&self) -> Map<usize, T> {
        self.tabs@
    }

    /// The current tab's id, if any (it need not name an open tab).
    pub closed spec fn current(&self) -> Option<TabId> {
        self.current_tab_id
    }

    /// The next id `new_tab_id` hands out.
    pub closed spec fn next(&self) -> usize {
        self.next_id
    }

    /// Every open tab has an id below the next one to be handed out.
    pub open spec fn ids_below_next(&self) -> bool {
        forall|k: usize| #[trigger] self.tabs().dom().contains(k) ==> k < self.next()
    }

    pub fn new() -> (s: Self)
        ensures
            s.tabs() == Map::<usize, T>::empty(),
            s.current() is None,
            s.next() == 0,
            s.ids_below_next(),
    {
        AppState { tabs: HashMap::new(), current_tab_id: None, next_id: 0 }
    }

    /// The next id to be handed out (callers check it before `new_tab_id`).
    pub fn next_tab_id(&self) -> (n: usize)
        ensures
            n == self.next(),
    {
        self.next_id
    }

    /// Hand out a new tab id: the counter's value, which then moves on by one.
    pub fn new_tab_id(&mut self) -> (id: TabId)
        requires
            old(self).next() < usize::MAX,
        ensures
            id == TabId(old(self).next()),
            final(self).next() == old(self).next() + 1,
            final(self).tabs() == old(self).tabs(),
            final(self).current() == old(self).current(),
            old(self).ids_below_next() ==> !final(self).tabs().dom().contains(id.0),
            old(self).ids_below_next() ==> final(self).ids_below_next(),
    {
        let id = TabId(self.next_id);
        self.next_id = self.next_id + 1;
        proof {
            if old(self).ids_below_next() {
                assert(self.tabs() == old(self).tabs());
                if self.tabs().dom().contains(id.0) {
                    assert(old(self).tabs().dom().contains(id.0));
                }
                assert forall|k: usize| #[trigger] self.tabs().dom().contains(k) implies k < self.next() by {
                    assert(old(self).tabs().dom().contains(k));
                }
            }
        }
        id
    }

    /// The data of the tab with this id, if it is open.
    pub fn get(&self, id: TabId) -> (r: Option<&T>)
        ensures
            match r {
                Some(t) => self.tabs().dom().contains(id.0) && self.tabs()[id.0] == *t,
                None => !self.tabs().dom().contains(id.0),
            },
    {
        self.tabs.get(&id.0)
    }

    /// Record a tab's data under `id`, replacing any tab already there.
    pub fn insert(&mut self, id: TabId, data: T)
        ensures
            final(self).tabs() == old(self).tabs().insert(id.0, data),
            final(self).current() == old(self).current(),
            final(self).next() == old(self).next(),
            old(self).ids_below_next() && id.0 < old(self).next() ==> final(self).ids_below_next(),
    {
        self.tabs.insert(id.0, data);
    }

    /// The current tab's data, if the current id names an open tab.
    pub fn get_current_tab(&self) -> (r: Option<&T>)
        ensures
            match self.current() {
                Some(id) => match r {
                    Some(t) => self.tabs().dom().contains(id.0) && self.tabs()[id.0] == *t,
                    None => !self.tabs().dom().contains(id.0),
                },
                None => r is None,
            },
    {
        match self.current_tab_id {
            Some(id) => self.get(id),
            None => None,
        }
    }

    /// The current tab's id.
    pub fn current_tab_id(&self) -> (r: Option<TabId>)
        ensures
            r == self.current(),
    {
        self.current_tab_id
    }

    /// Make `id` the current tab (or none).
    pub fn set_current_tab(&mut self, id: Option<TabId>)
        ensures
            final(self).current() == id,
            final(self).tabs() == old(self).tabs(),
            final(self).next() == old(self).next(),
    {
        self.current_tab_id = id;
    }

    /// Close the tab with this id, returning its data. Closing the current
    /// tab makes one of the remaining tabs current (whichever the map yields
    /// first), or none when no tab remains.
    pub fn close_tab(&mut self, tab_id: TabId) -> (removed: Option<T>)
        ensures
            final(self).tabs() == old(self).tabs().remove(tab_id.0),
            match removed {
                Some(d) => old(self).tabs().dom().contains(tab_id.0) && d == old(self).tabs()[tab_id.0],
                None => !old(self).tabs().dom().contains(tab_id.0),
            },
            final(self).next() == old(self).next(),
            final(self).tabs().dom().finite(),
            old(self).current() == Some(tab_id) ==> match final(self).current() {
                Some(c) => final(self).tabs().dom().contains(c.0),
                None => final(self).tabs().dom().len() == 0,
            },
            old(self).current() != Some(tab_id) ==> final(self).current() == old(self).current(),
            final(self).current() != Some(tab_id),
            old(self).ids_below_next() ==> final(self).ids_below_next(),
    {
        let ghost before = self.tabs@;
        let removed = self.tabs.remove(&tab_id.0);
        proof {
            if removed is None {
                assert(before.remove(tab_id.0) =~= before);
            }
        }
        if self.current_tab_id == Some(tab_id) {
            let ghost dom = self.tabs@.dom();
            let ghost ks = spec_keys_iter(&self.tabs).remaining();
            let mut first: Option<usize> = None;
            for k in it: self.tabs.keys()
                invariant
                    it.seq() == ks,
                    ks.unref().to_set() == dom,
                    ks.len() == dom.len(),
                    (first is None) == (it.index() == 0),
                    first matches Some(x) ==> dom.contains(x),
            {
                proof {
                    assert(ks.unref()[it.index() as int] == *k);
                    assert(ks.unref().contains(*k));
                }
                if first.is_none() {
                    first = Some(*k);
                }
            }
            self.current_tab_id = match first {
                Some(k) => Some(TabId(k)),
                None => None,
            };
        }
        removed
    }
}

/// `ids[i]` is what `new_tab_id` returned on `states[i]`, which it left as
/// `states[i + 1]` (the counter moved on by one).
pub open spec fn handed_out_in_turn<T>(states: Seq<AppState<T>>, ids: Seq<TabId>) -> bool {
    forall|i: int|
        0 <= i < ids.len() ==> #[trigger] ids[i] == TabId(states[i].next()) && states[i + 1].next()
            == states[i].next() + 1
}

proof fn lemma_counter_after<T>(states: Seq<AppState<T>>, ids: Seq<TabId>, k: int)
    requires
        states.len() == ids.len() + 1,
        states[0].next() == 0,
        handed_out_in_turn(states, ids),
        0 <= k <= ids.len(),
    ensures
        states[k].next() == k,
    decreases k,
{
    if k > 0 {
        lemma_counter_after(states, ids, k - 1);
        assert(ids[k - 1] == TabId(states[k - 1].next()));
    }
}

/// Tab ids count up from zero: on a fresh table (`new`), where `states[i]`
/// is the table before the `i`-th call of `new_tab_id` and `ids[i]` what
/// that call returned, the calls hand out `TabId(0)`, `TabId(1)`, ... in
/// turn, the counter ends at the number of calls, and no id comes twice.
pub proof fn lemma_tab_ids_count_up<T>(states: Seq<AppState<T>>, ids: Seq<TabId>)
    requires
        states.len() == ids.len() + 1,
        states[0].next() == 0,
        handed_out_in_turn(states, ids),
    ensures
        forall|i: int| 0 <= i < ids.len() ==> (#[trigger] ids[i]).0 == i,
        states.last().next() == ids.len(),
        ids.no_duplicates(),
{
    assert forall|i: int| 0 <= i < ids.len() implies (#[trigger] ids[i]).0 == i by {
        lemma_counter_after(states, ids, i);
    }
    lemma_counter_after(states, ids, ids.len() as int);
    assert forall|i: int, j: int| 0 <= i < ids.len() && 0 <= j < ids.len() && i != j implies ids[i]
        != ids[j] by {
        assert(ids[i].0 == i && ids[j].0 == j);
    }
}

} // verus!
