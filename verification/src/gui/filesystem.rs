//! Listing logic: which entries a view shows and in which order, and the
//! naming decisions of folder creation, trash and rename.

use vstd::prelude::*;
use crate::gui::types::{FileEntry, SortBy};
use crate::path::{
    extension, file_name, file_name_of, file_stem, join, join_spec, lemma_filter_step, parent, parent_of,
    path_extension, path_stem,
};
use crate::text::{decimal_string, digits, lemma_digits_injective, lemma_digits_len, lemma_strip_affixes};
use crate::vfs::entry::DirectoryEntry;
use crate::text::{
    chars_of, contains_chars, contains_seq, lemma_lex_irreflexive, lemma_lex_total,
    lemma_lex_transitive, lex_compare, lex_less, lowercase, to_lowercase,
};

verus! {

/// A name that starts with `.` (a hidden file).
pub open spec fn is_hidden_name(name: Seq<char>) -> bool {
    name.len() > 0 && name[0] == '.'
}

/// Whether a view shows `e`: hidden names only when `show_hidden`, and, when
/// the search text is not empty, only names whose lowercase form contains the
/// lowercase search text.
pub open spec fn is_visible(e: FileEntry, show_hidden: bool, search: Seq<char>) -> bool {
    &&& show_hidden || !is_hidden_name(e.name@)
    &&& search.len() == 0 || contains_seq(lowercase(e.name@), lowercase(search))
}

/// `is_visible` as a filter predicate.
pub open spec fn visible_filter(show_hidden: bool, search: Seq<char>) -> spec_fn(FileEntry) -> bool {
    |e: FileEntry| is_visible(e, show_hidden, search)
}

/// The comparator of the listing: `a` sorts strictly before `b`.
/// Name: folders first, then by lowercase name. Date: newest first.
/// Size: largest first. Type: folders first, then by extension.
pub open spec fn sorts_before(a: FileEntry, b: FileEntry, sort_by: SortBy) -> bool {
    match sort_by {
        SortBy::Name => (a.is_dir && !b.is_dir) || (a.is_dir == b.is_dir && lex_less(
            lowercase(a.name@),
            lowercase(b.name@),
        )),
        SortBy::Date => a.modified > b.modified,
        SortBy::Size => a.size > b.size,
        SortBy::Type => (a.is_dir && !b.is_dir) || (a.is_dir == b.is_dir && lex_less(
            a.extension@,
            b.extension@,
        )),
    }
}

/// In a stable sort of `f`, the element at index `i` comes before the one at
/// index `j`: it sorts strictly before it, or they tie and `i` came first.
pub open spec fn placed_before(f: Seq<FileEntry>, i: int, j: int, sort_by: SortBy) -> bool {
    sorts_before(f[i], f[j], sort_by) || (!sorts_before(f[j], f[i], sort_by) && i < j)
}

/// `result` is `f` stably sorted, `order[i]` being the index in `f` of the
/// entry at `result[i]`.
pub open spec fn is_stable_arrangement(
    result: Seq<FileEntry>,
    f: Seq<FileEntry>,
    order: Seq<int>,
    sort_by: SortBy,
) -> bool {
    &&& order.len() == f.len()
    &&& result.len() == f.len()
    &&& forall|i: int| 0 <= i < order.len() ==> 0 <= #[trigger] order[i] < f.len()
    &&& forall|i: int| 0 <= i < order.len() ==> result[i] == f[#[trigger] order[i]]
    &&& forall|i: int, j: int|
        0 <= i < j < order.len() ==> placed_before(f, #[trigger] order[i], #[trigger] order[j], sort_by)
}

/// The listing comparator is a strict weak order.
pub proof fn lemma_sorts_before_strict_weak(a: FileEntry, b: FileEntry, c: FileEntry, sort_by: SortBy)
    ensures
        !sorts_before(a, a, sort_by),
        sorts_before(a, b, sort_by) && sorts_before(b, c, sort_by) ==> sorts_before(a, c, sort_by),
        sorts_before(a, b, sort_by) ==> sorts_before(a, c, sort_by) || sorts_before(c, b, sort_by),
        sorts_before(a, b, sort_by) ==> !sorts_before(b, a, sort_by),
{
    let (x, y, z) = match sort_by {
        SortBy::Type => (a.extension@, b.extension@, c.extension@),
        _ => (lowercase(a.name@), lowercase(b.name@), lowercase(c.name@)),
    };
    lemma_lex_irreflexive(x);
    lemma_lex_total(x, y);
    lemma_lex_total(x, z);
    lemma_lex_total(z, y);
    if lex_less(x, y) && lex_less(y, z) {
        lemma_lex_transitive(x, y, z);
    }
    if lex_less(z, x) && lex_less(x, y) {
        lemma_lex_transitive(z, x, y);
    }
    if lex_less(x, z) && lex_less(z, y) {
        lemma_lex_transitive(x, z, y);
    }
    if lex_less(x, y) && lex_less(y, x) {
        lemma_lex_transitive(x, y, x);
    }
}

/// Inserting index `k` at `pos` keeps a stable arrangement of the first `k`
/// indices sorted, when every index before `pos` does not sort after `k`'s
/// entry and the one at `pos` (if any) does.
proof fn lemma_insert_sorted(f: Seq<FileEntry>, order: Seq<int>, pos: int, k: int, sort_by: SortBy)
    requires
        0 <= pos <= order.len(),
        0 <= k < f.len(),
        forall|t: int| 0 <= t < order.len() ==> 0 <= #[trigger] order[t] < k,
        forall|a: int, b: int|
            0 <= a < b < order.len() ==> placed_before(f, #[trigger] order[a], #[trigger] order[b], sort_by),
        forall|t: int| 0 <= t < pos ==> !sorts_before(f[k], f[#[trigger] order[t]], sort_by),
        pos < order.len() ==> sorts_before(f[k], f[order[pos]], sort_by),
    ensures
        forall|a: int, b: int|
            0 <= a < b < order.len() + 1 ==> placed_before(
                f,
                #[trigger] order.insert(pos, k)[a],
                #[trigger] order.insert(pos, k)[b],
                sort_by,
            ),
{
    let n = order.insert(pos, k);
    assert forall|a: int, b: int| 0 <= a < b < order.len() + 1 implies placed_before(
        f,
        #[trigger] n[a],
        #[trigger] n[b],
        sort_by,
    ) by {
        if a < pos && b == pos {
            assert(n[a] == order[a]);
            assert(n[b] == k);
        } else if a == pos && b > pos {
            let ob = order[b - 1];
            assert(n[b] == ob);
            if b - 1 > pos {
                assert(placed_before(f, order[pos], order[b - 1], sort_by));
            }
            lemma_sorts_before_strict_weak(f[order[pos]], f[ob], f[k], sort_by);
            lemma_sorts_before_strict_weak(f[k], f[order[pos]], f[ob], sort_by);
        } else if a < pos && b < pos {
            assert(n[a] == order[a] && n[b] == order[b]);
        } else if a < pos && b > pos {
            assert(n[a] == order[a] && n[b] == order[b - 1]);
        } else {
            assert(a > pos);
            assert(n[a] == order[a - 1] && n[b] == order[b - 1]);
        }
    }
}

/// The sort key of an entry for the `Name` order: its lowercase name.
fn name_key(e: &FileEntry) -> (k: Vec<char>)
    ensures
        k@ == lowercase(e.name@),
{
    let lower = to_lowercase(e.name.as_str());
    chars_of(lower.as_str())
}

fn entry_sorts_before(
    a: &FileEntry,
    ka: &Vec<char>,
    b: &FileEntry,
    kb: &Vec<char>,
    sort_by: SortBy,
) -> (r: bool)
    requires
        ka@ == lowercase(a.name@),
        kb@ == lowercase(b.name@),
    ensures
        r == sorts_before(*a, *b, sort_by),
{
    match sort_by {
        SortBy::Name => {
            if a.is_dir != b.is_dir {
                a.is_dir
            } else {
                lex_compare(ka.as_slice(), kb.as_slice()) == -1
            }
        },
        SortBy::Date => a.modified > b.modified,
        SortBy::Size => a.size > b.size,
        SortBy::Type => {
            if a.is_dir != b.is_dir {
                a.is_dir
            } else {
                let ea = chars_of(a.extension.as_str());
                let eb = chars_of(b.extension.as_str());
                lex_compare(ea.as_slice(), eb.as_slice()) == -1
            }
        },
    }
}

fn entry_is_visible(e: &FileEntry, key: &Vec<char>, show_hidden: bool, search_empty: bool, search_key: &Vec<char>, Ghost(search): Ghost<Seq<char>>) -> (r: bool)
    requires
        key@ == lowercase(e.name@),
        search_empty == (search.len() == 0),
        search_key@ == lowercase(search),
    ensures
        r == is_visible(*e, show_hidden, search),
{
    if !show_hidden {
        let name = chars_of(e.name.as_str());
        if name.len() > 0 && name[0] == '.' {
            return false;
        }
    }
    if !search_empty && !contains_chars(key.as_slice(), search_key.as_slice()) {
        return false;
    }
    true
}

/// Filter and sort entries: the visible entries (see `is_visible`), stably
/// sorted by the order of `sort_by` (see `sorts_before`).
pub fn filter_and_sort(entries: &[FileEntry], show_hidden: bool, search: &str, sort_by: SortBy) -> (result: Vec<FileEntry>)
    ensures
        exists|order: Seq<int>|
            is_stable_arrangement(
                result@,
                entries@.filter(visible_filter(show_hidden, search@)),
                order,
                sort_by,
            ),
        !show_hidden ==> forall|i: int|
            0 <= i < result@.len() ==> !((#[trigger] result@[i]).name@.len() > 0 && result@[i].name@[0]
                == '.'),
        forall|i: int|
            0 <= i < result@.len() ==> search@.len() == 0 || contains_seq(
                lowercase((#[trigger] result@[i]).name@),
                lowercase(search@),
            ),
{
    let ghost pred = visible_filter(show_hidden, search@);
    let search_empty = search.is_empty();
    let search_lower = to_lowercase(search);
    let search_key = chars_of(search_lower.as_str());
    let mut filtered: Vec<FileEntry> = Vec::new();
    let mut keys: Vec<Vec<char>> = Vec::new();
    proof {
        reveal(Seq::filter);
        assert(entries@.take(0) =~= Seq::<FileEntry>::empty());
    }
    for i in 0..entries.len()
        invariant
            pred == visible_filter(show_hidden, search@),
            search_empty == (search@.len() == 0),
            search_key@ == lowercase(search@),
            filtered@ == entries@.take(i as int).filter(pred),
            keys@.len() == filtered@.len(),
            forall|t: int| 0 <= t < keys@.len() ==> #[trigger] keys@[t]@ == lowercase(filtered@[t].name@),
    {
        let key = name_key(&entries[i]);
        let visible = entry_is_visible(&entries[i], &key, show_hidden, search_empty, &search_key, Ghost(search@));
        proof {
            assert(entries@.take(i + 1).drop_last() =~= entries@.take(i as int));
            assert(entries@.take(i + 1).last() == entries@[i as int]);
            lemma_filter_step(entries@.take(i + 1), pred);
        }
        if visible {
            filtered.push(entries[i].clone());
            keys.push(key);
        }
    }
    proof {
        assert(entries@.take(entries@.len() as int) =~= entries@);
    }
    let ghost f = filtered@;
    let n = filtered.len();
    let mut order: Vec<usize> = Vec::new();
    for k in 0..n
        invariant
            n == f.len(),
            filtered@ == f,
            keys@.len() == f.len(),
            forall|t: int| 0 <= t < keys@.len() ==> #[trigger] keys@[t]@ == lowercase(f[t].name@),
            order@.len() == k,
            forall|t: int| 0 <= t < order@.len() ==> #[trigger] order@[t] < k,
            forall|a: int, b: int|
                0 <= a < b < order@.len() ==> placed_before(
                    f,
                    #[trigger] order@[a] as int,
                    #[trigger] order@[b] as int,
                    sort_by,
                ),
    {
        let mut pos: usize = 0;
        while pos < order.len() && !entry_sorts_before(
            &filtered[k],
            &keys[k],
            &filtered[order[pos]],
            &keys[order[pos]],
            sort_by,
        )
            invariant
                n == f.len(),
                filtered@ == f,
                keys@.len() == f.len(),
                forall|t: int| 0 <= t < keys@.len() ==> #[trigger] keys@[t]@ == lowercase(f[t].name@),
                k < n,
                pos <= order@.len(),
                forall|t: int| 0 <= t < order@.len() ==> #[trigger] order@[t] < k,
                forall|t: int|
                    0 <= t < pos ==> !sorts_before(f[k as int], f[#[trigger] order@[t] as int], sort_by),
            decreases order@.len() - pos,
        {
            pos += 1;
        }
        let ghost ints = order@.map_values(|x: usize| x as int);
        proof {
            lemma_insert_sorted(f, ints, pos as int, k as int, sort_by);
            assert(ints.insert(pos as int, k as int) =~= order@.insert(pos as int, k).map_values(
                |x: usize| x as int,
            ));
        }
        order.insert(pos, k);
        proof {
            let new_ints = order@.map_values(|x: usize| x as int);
            assert forall|a: int, b: int| 0 <= a < b < order@.len() implies placed_before(
                f,
                #[trigger] order@[a] as int,
                #[trigger] order@[b] as int,
                sort_by,
            ) by {
                assert(new_ints[a] == order@[a] as int);
                assert(new_ints[b] == order@[b] as int);
            }
            assert forall|t: int| 0 <= t < order@.len() implies #[trigger] order@[t] < k + 1 by {
                if t < pos {
                    assert(order@[t] == ints[t]);
                } else if t > pos {
                    assert(order@[t] == ints[t - 1]);
                }
            }
        }
    }
    let mut result: Vec<FileEntry> = Vec::new();
    for t in 0..n
        invariant
            n == f.len(),
            filtered@ == f,
            order@.len() == n,
            forall|u: int| 0 <= u < order@.len() ==> #[trigger] order@[u] < n,
            result@.len() == t,
            forall|u: int| 0 <= u < t ==> result@[u] == f[#[trigger] order@[u] as int],
    {
        result.push(filtered[order[t]].clone());
    }
    proof {
        let w = order@.map_values(|x: usize| x as int);
        assert(is_stable_arrangement(result@, f, w, sort_by));
        lemma_listing_shows_only_matches(entries@, result@, w, show_hidden, search@, sort_by);
    }
    result
}

/// What a listing shows: with hidden files off, no name starting with `.`
/// (whatever the search); with a search text, only names whose lowercase form
/// contains the lowercase search text.
pub proof fn lemma_listing_shows_only_matches(
    entries: Seq<FileEntry>,
    result: Seq<FileEntry>,
    order: Seq<int>,
    show_hidden: bool,
    search: Seq<char>,
    sort_by: SortBy,
)
    requires
        is_stable_arrangement(result, entries.filter(visible_filter(show_hidden, search)), order, sort_by),
    ensures
        !show_hidden ==> forall|i: int|
            0 <= i < result.len() ==> !((#[trigger] result[i]).name@.len() > 0 && result[i].name@[0] == '.'),
        forall|i: int|
            0 <= i < result.len() ==> search.len() == 0 || contains_seq(
                lowercase((#[trigger] result[i]).name@),
                lowercase(search),
            ),
{
    broadcast use vstd::seq_lib::group_filter_ensures;

    let f = entries.filter(visible_filter(show_hidden, search));
    assert forall|i: int| 0 <= i < result.len() implies (show_hidden || !((#[trigger] result[i]).name@.len() > 0
        && result[i].name@[0] == '.')) && (search.len() == 0 || contains_seq(
        lowercase(result[i].name@),
        lowercase(search),
    )) by {
        assert(result[i] == f[order[i]]);
        assert(visible_filter(show_hidden, search)(f[order[i]]));
    }
}

/// `placed_before` orders the indices of `f` strictly and totally.
proof fn lemma_placed_before_total(f: Seq<FileEntry>, i: int, j: int, sort_by: SortBy)
    ensures
        !placed_before(f, i, i, sort_by),
        i != j ==> (placed_before(f, i, j, sort_by) <==> !placed_before(f, j, i, sort_by)),
{
    lemma_sorts_before_strict_weak(f[i], f[j], f[i], sort_by);
    lemma_sorts_before_strict_weak(f[j], f[i], f[j], sort_by);
}

/// Every index of `f` occurs in the order of a stable arrangement of `f`.
proof fn lemma_arrangement_covers(
    result: Seq<FileEntry>,
    f: Seq<FileEntry>,
    order: Seq<int>,
    sort_by: SortBy,
    t: int,
)
    requires
        is_stable_arrangement(result, f, order, sort_by),
        0 <= t < f.len(),
    ensures
        exists|p: int| 0 <= p < order.len() && order[p] == t,
{
    broadcast use vstd::seq_lib::seq_to_set_is_finite;

    assert forall|i: int, j: int| 0 <= i < order.len() && 0 <= j < order.len() && i != j implies order[i]
        != order[j] by {
        if i < j {
            assert(placed_before(f, order[i], order[j], sort_by));
            lemma_placed_before_total(f, order[i], order[j], sort_by);
        } else {
            assert(placed_before(f, order[j], order[i], sort_by));
            lemma_placed_before_total(f, order[j], order[i], sort_by);
        }
    }
    order.unique_seq_to_set();
    let range = vstd::set_lib::set_int_range(0, f.len() as int);
    vstd::set_lib::lemma_int_range(0, f.len() as int);
    assert(order.to_set().subset_of(range)) by {
        assert forall|x: int| order.to_set().contains(x) implies range.contains(x) by {
            let p = choose|p: int| 0 <= p < order.len() && order[p] == x;
            assert(0 <= order[p] < f.len());
        }
    }
    vstd::set_lib::lemma_subset_equality(order.to_set(), range);
    assert(range.contains(t));
    assert(order.to_set().contains(t));
}

/// Two stable arrangements of `f` agree at `k` when they agree before it.
proof fn lemma_orders_agree_at(
    r1: Seq<FileEntry>,
    r2: Seq<FileEntry>,
    f: Seq<FileEntry>,
    o1: Seq<int>,
    o2: Seq<int>,
    sort_by: SortBy,
    k: int,
)
    requires
        is_stable_arrangement(r1, f, o1, sort_by),
        is_stable_arrangement(r2, f, o2, sort_by),
        0 <= k < f.len(),
        forall|j: int| 0 <= j < k ==> o1[j] == o2[j],
    ensures
        o1[k] == o2[k],
{
    let a = o1[k];
    let b = o2[k];
    if a != b {
        lemma_arrangement_covers(r1, f, o1, sort_by, b);
        lemma_arrangement_covers(r2, f, o2, sort_by, a);
        let p = choose|p: int| 0 <= p < o1.len() && o1[p] == b;
        let q = choose|q: int| 0 <= q < o2.len() && o2[q] == a;
        if p < k {
            assert(o2[p] == b);
            assert(placed_before(f, o2[p], o2[k], sort_by));
            lemma_placed_before_total(f, b, b, sort_by);
        }
        if q < k {
            assert(o1[q] == a);
            assert(placed_before(f, o1[q], o1[k], sort_by));
            lemma_placed_before_total(f, a, a, sort_by);
        }
        assert(placed_before(f, o1[k], o1[p], sort_by));
        assert(placed_before(f, o2[k], o2[q], sort_by));
        lemma_placed_before_total(f, a, b, sort_by);
    }
}

proof fn lemma_orders_agree_upto(
    r1: Seq<FileEntry>,
    r2: Seq<FileEntry>,
    f: Seq<FileEntry>,
    o1: Seq<int>,
    o2: Seq<int>,
    sort_by: SortBy,
    k: int,
)
    requires
        is_stable_arrangement(r1, f, o1, sort_by),
        is_stable_arrangement(r2, f, o2, sort_by),
        0 <= k <= f.len(),
    ensures
        forall|j: int| 0 <= j < k ==> o1[j] == o2[j],
    decreases k,
{
    if k > 0 {
        lemma_orders_agree_upto(r1, r2, f, o1, o2, sort_by, k - 1);
        lemma_orders_agree_at(r1, r2, f, o1, o2, sort_by, k - 1);
    }
}

/// A listing has a single stable order: two stable arrangements of the same
/// entries by the same order are the same list. So `filter_and_sort` gives
/// one result for given entries and settings.
pub proof fn lemma_stable_arrangement_unique(
    r1: Seq<FileEntry>,
    r2: Seq<FileEntry>,
    f: Seq<FileEntry>,
    o1: Seq<int>,
    o2: Seq<int>,
    sort_by: SortBy,
)
    requires
        is_stable_arrangement(r1, f, o1, sort_by),
        is_stable_arrangement(r2, f, o2, sort_by),
    ensures
        r1 == r2,
{
    lemma_orders_agree_upto(r1, r2, f, o1, o2, sort_by, f.len() as int);
    assert forall|i: int| 0 <= i < r1.len() implies r1[i] == r2[i] by {
        assert(r1[i] == f[o1[i]]);
        assert(r2[i] == f[o2[i]]);
    }
    assert(r1 =~= r2);
}

proof fn lemma_filter_all<A>(s: Seq<A>, pred: spec_fn(A) -> bool)
    requires
        forall|i: int| 0 <= i < s.len() ==> pred(#[trigger] s[i]),
    ensures
        s.filter(pred) == s,
    decreases s.len(),
{
    if s.len() == 0 {
        reveal(Seq::filter);
        assert(s.filter(pred) =~= s);
    } else {
        lemma_filter_all(s.drop_last(), pred);
        lemma_filter_step(s, pred);
        assert(pred(s[s.len() - 1]));
        assert(s.drop_last().push(s.last()) =~= s);
    }
}

/// The listing is stable under refreshing: filtering and sorting the result
/// of `filter_and_sort` again, with the same settings, gives it back.
pub proof fn lemma_filter_and_sort_idempotent(
    entries: Seq<FileEntry>,
    result: Seq<FileEntry>,
    again: Seq<FileEntry>,
    show_hidden: bool,
    search: Seq<char>,
    sort_by: SortBy,
)
    requires
        exists|order: Seq<int>|
            is_stable_arrangement(result, entries.filter(visible_filter(show_hidden, search)), order, sort_by),
        exists|order: Seq<int>|
            is_stable_arrangement(again, result.filter(visible_filter(show_hidden, search)), order, sort_by),
    ensures
        again == result,
{
    broadcast use vstd::seq_lib::group_filter_ensures;

    let pred = visible_filter(show_hidden, search);
    let f = entries.filter(pred);
    let order = choose|order: Seq<int>| is_stable_arrangement(result, f, order, sort_by);
    let order2 = choose|order: Seq<int>| is_stable_arrangement(again, result.filter(pred), order, sort_by);
    assert forall|i: int| 0 <= i < result.len() implies pred(#[trigger] result[i]) by {
        assert(result[i] == f[order[i]]);
        assert(pred(f[order[i]]));
    }
    lemma_filter_all(result, pred);
    let ident = Seq::new(result.len(), |i: int| i);
    assert forall|i: int, j: int| 0 <= i < j < ident.len() implies placed_before(
        result,
        #[trigger] ident[i],
        #[trigger] ident[j],
        sort_by,
    ) by {
        assert(placed_before(f, order[i], order[j], sort_by));
        assert(result[i] == f[order[i]]);
        assert(result[j] == f[order[j]]);
    }
    assert(is_stable_arrangement(result, result, ident, sort_by));
    lemma_stable_arrangement_unique(again, result, result, order2, ident, sort_by);
}

} // verus!

verus! {

/// The listing entry for a VFS entry: same name and path; folders show size
/// zero; a missing modification time counts as the epoch; the extension is
/// the path's (empty where it has none).
pub fn file_entry_from(entry: DirectoryEntry) -> (e: FileEntry)
    ensures
        e.name == entry.name,
        e.path == entry.path,
        e.is_dir == entry.metadata.is_dir,
        e.size == (if entry.metadata.is_dir { 0 } else { entry.metadata.size }),
        e.modified == match entry.metadata.modified_at {
            Some(t) => t,
            None => 0,
        },
        e.extension@ == match path_extension(entry.path@) {
            Some(x) => x,
            None => Seq::<char>::empty(),
        },
{
    let is_dir = entry.metadata.is_dir;
    let size = if is_dir { 0 } else { entry.metadata.size };
    let modified = match entry.metadata.modified_at {
        Some(t) => t,
        None => 0,
    };
    let ext = match extension(entry.path.as_str()) {
        Some(x) => x,
        None => String::new(),
    };
    FileEntry { name: entry.name, path: entry.path, is_dir, size, modified, extension: ext }
}

/// Where mounted drives are looked for.
#[derive(Clone, Copy, Debug, PartialEq, Eq, Structural)]
pub enum DriveSource {
    /// `/media/<user>`
    Media,
    /// `/mnt`
    Mnt,
    /// `/run/media/<user>`
    RunMedia,
}

/// One entry of a directory listing: its path and whether it is a directory.
#[derive(Debug)]
pub struct ListedPath {
    pub path: String,
    pub is_dir: bool,
}

/// The label prefix of a drive found under `source`.
pub open spec fn drive_prefix(source: DriveSource) -> Seq<char> {
    match source {
        DriveSource::Mnt => "💾 "@,
        _ => "💌 "@,
    }
}

/// An entry of a listing of `source` that is shown as a drive: a directory
/// with a file name, not hidden when under `/mnt`.
pub open spec fn is_drive(source: DriveSource, l: ListedPath) -> bool {
    &&& l.is_dir
    &&& file_name_of(l.path@) is Some
    &&& source == DriveSource::Mnt ==> !is_hidden_name(file_name_of(l.path@).unwrap())
}

/// The entries of a listing that are shown as drives, in listing order.
pub open spec fn drive_entries(listing: Seq<ListedPath>, source: DriveSource) -> Seq<ListedPath> {
    listing.filter(|l: ListedPath| is_drive(source, l))
}

/// The drives found in one listing: `(label, path)` for each entry that
/// `is_drive` accepts, in listing order, labelled by prefix and file name.
pub fn drives_in(listing: &Vec<ListedPath>, source: DriveSource) -> (drives: Vec<(String, String)>)
    ensures
        drives@.len() == drive_entries(listing@, source).len(),
        forall|i: int|
            0 <= i < drives@.len() ==> {
                &&& drives@[i].1 == (#[trigger] drive_entries(listing@, source)[i]).path
                &&& drives@[i].0@ == drive_prefix(source) + file_name_of(
                    drive_entries(listing@, source)[i].path@,
                ).unwrap()
            },
{
    let ghost pred = |l: ListedPath| is_drive(source, l);
    let mut drives: Vec<(String, String)> = Vec::new();
    let ghost mut shown: Seq<ListedPath> = Seq::empty();
    proof {
        reveal(Seq::filter);
        assert(listing@.take(0) =~= Seq::<ListedPath>::empty());
    }
    for i in 0..listing.len()
        invariant
            pred == (|l: ListedPath| is_drive(source, l)),
            shown == listing@.take(i as int).filter(pred),
            drives@.len() == shown.len(),
            forall|k: int|
                0 <= k < drives@.len() ==> {
                    &&& drives@[k].1 == (#[trigger] shown[k]).path
                    &&& drives@[k].0@ == drive_prefix(source) + file_name_of(shown[k].path@).unwrap()
                },
    {
        let l = &listing[i];
        proof {
            assert(listing@.take(i + 1).drop_last() =~= listing@.take(i as int));
            assert(listing@.take(i + 1).last() == listing@[i as int]);
            lemma_filter_step(listing@.take(i + 1), pred);
        }
        if l.is_dir {
            match file_name(l.path.as_str()) {
                Some(name) => {
                    let hidden = {
                        let cs = crate::text::chars_of(name.as_str());
                        cs.len() > 0 && cs[0] == '.'
                    };
                    let skip = match source {
                        DriveSource::Mnt => hidden,
                        _ => false,
                    };
                    if !skip {
                        let prefix = match source {
                            DriveSource::Mnt => String::from_str("💾 "),
                            _ => String::from_str("💌 "),
                        };
                        let label = prefix.concat(name.as_str());
                        drives.push((label, l.path.clone()));
                        proof {
                            shown = shown.push(listing@[i as int]);
                        }
                    }
                },
                None => {},
            }
        }
    }
    proof {
        assert(listing@.take(listing@.len() as int) =~= listing@);
    }
    drives
}

/// The folder where removable media of the user whose home is `home` are
/// mounted: `/media/` and the home's file name, or `root` where it has none.
pub fn media_dir(home: &str) -> (r: String)
    ensures
        r@ == "/media/"@ + match file_name_of(home@) {
            Some(n) => n,
            None => "root"@,
        },
{
    let user = match file_name(home) {
        Some(n) => n,
        None => String::from_str("root"),
    };
    String::from_str("/media/").concat(user.as_str())
}

/// The udisks mount folder of the user whose home is `home`: named by the
/// home's file name, or `root` where it has none.
pub fn run_media_dir(home: &str) -> (r: String)
    ensures
        r@ == "/run/media/"@ + match file_name_of(home@) {
            Some(n) => n,
            None => "root"@,
        },
{
    let user = match file_name(home) {
        Some(n) => n,
        None => String::from_str("root"),
    };
    String::from_str("/run/media/").concat(user.as_str())
}

/// The trash folder: `.local/share/Trash/files` under the home directory, or
/// `/tmp/.trash` where there is none.
pub fn trash_dir(home: Option<String>) -> (r: String)
    ensures
        r@ == match home {
            Some(h) => join_spec(h@, ".local/share/Trash/files"@),
            None => "/tmp/.trash"@,
        },
{
    match home {
        Some(h) => join(h.as_str(), ".local/share/Trash/files"),
        None => String::from_str("/tmp/.trash"),
    }
}

/// Where a file first goes in the trash: the trash folder joined with the
/// file's name, or with `unknown` where it has none.
pub fn trash_destination(trash: &str, path: &str) -> (r: String)
    ensures
        r@ == join_spec(trash@, match file_name_of(path@) {
            Some(n) => n,
            None => "unknown"@,
        }),
{
    let name = match file_name(path) {
        Some(n) => n,
        None => String::from_str("unknown"),
    };
    join(trash, name.as_str())
}

/// The name tried in the trash after `counter` collisions:
/// `stem (counter)`, or `stem.ext (counter)` where the path has an extension.
pub open spec fn trash_collision_name(path: Seq<char>, counter: nat) -> Seq<char> {
    let ext = match path_extension(path) {
        Some(x) => x,
        None => Seq::<char>::empty(),
    };
    let stem = match path_stem(path) {
        Some(s) => s,
        None => "unknown"@,
    };
    if ext.len() == 0 {
        stem + " ("@ + digits(counter, 10) + ")"@
    } else {
        stem + "."@ + ext + " ("@ + digits(counter, 10) + ")"@
    }
}

/// The path tried in the trash after `counter` collisions (see
/// `trash_collision_name`).
pub fn trash_collision_path(trash: &str, path: &str, counter: u64) -> (r: String)
    ensures
        r@ == join_spec(trash@, trash_collision_name(path@, counter as nat)),
{
    let ext = match extension(path) {
        Some(x) => x,
        None => String::new(),
    };
    let stem = match file_stem(path) {
        Some(s) => s,
        None => String::from_str("unknown"),
    };
    let n = decimal_string(counter);
    let name = if ext.as_str().is_empty() {
        stem.concat(" (").concat(n.as_str()).concat(")")
    } else {
        stem.concat(".").concat(ext.as_str()).concat(" (").concat(n.as_str()).concat(")")
    };
    join(trash, name.as_str())
}

/// What renaming a file to a new name comes to.
#[derive(Debug)]
pub enum RenamePlan {
    /// The name is unchanged: nothing to do, the path stays.
    Unchanged(String),
    /// Move the file to this path (if nothing exists there yet).
    MoveTo(String),
}

/// Plan a rename of `old_path` to `new_name`: unchanged when the file name
/// (empty where there is none) equals the new name; otherwise the new name
/// joined onto the parent (or onto the path itself where it has no parent).
pub fn rename_plan(old_path: &str, new_name: &str) -> (r: RenamePlan)
    ensures
        ({
            let old_name = match file_name_of(old_path@) {
                Some(n) => n,
                None => Seq::<char>::empty(),
            };
            let base = match parent_of(old_path@) {
                Some(p) => p,
                None => old_path@,
            };
            if old_name == new_name@ {
                r matches RenamePlan::Unchanged(p) && p@ == old_path@
            } else {
                r matches RenamePlan::MoveTo(p) && p@ == join_spec(base, new_name@)
            }
        }),
{
    let old_name = match file_name(old_path) {
        Some(n) => n,
        None => String::new(),
    };
    let new_owned = new_name.to_owned();
    if old_name == new_owned {
        return RenamePlan::Unchanged(old_path.to_owned());
    }
    let base = match parent(old_path) {
        Some(p) => p,
        None => old_path.to_owned(),
    };
    RenamePlan::MoveTo(join(base.as_str(), new_name))
}

/// The place `move_to_trash` tries at attempt `attempt` (counting from 0):
/// the file's own name in the trash first, then the collision names with
/// counters 1, 2, ... (see `trash_collision_name`).
pub fn trash_candidate(trash: &str, path: &str, attempt: u64) -> (r: String)
    ensures
        attempt == 0 ==> r@ == join_spec(trash@, match file_name_of(path@) {
            Some(n) => n,
            None => "unknown"@,
        }),
        attempt > 0 ==> r@ == join_spec(trash@, trash_collision_name(path@, attempt as nat)),
{
    if attempt == 0 {
        trash_destination(trash, path)
    } else {
        trash_collision_path(trash, path, attempt)
    }
}

/// The name of the `counter`-th folder that `create_new_folder` tries:
/// `Untitled Folder`, then `Untitled Folder 1`, `Untitled Folder 2`, ...
pub open spec fn untitled_folder_name(counter: nat) -> Seq<char> {
    if counter == 0 {
        "Untitled Folder"@
    } else {
        "Untitled Folder "@ + digits(counter, 10)
    }
}

/// The folder names `create_new_folder` tries, in order: counters 0 to 100.
pub fn untitled_folder_candidates() -> (names: Vec<String>)
    ensures
        names@.len() == 101,
        forall|i: int| 0 <= i < 101 ==> (#[trigger] names@[i])@ == untitled_folder_name(i as nat),
{
    let mut names: Vec<String> = Vec::new();
    for counter in 0..101u64
        invariant
            names@.len() == counter,
            forall|i: int| 0 <= i < counter ==> (#[trigger] names@[i])@ == untitled_folder_name(i as nat),
    {
        if counter == 0 {
            names.push(String::from_str("Untitled Folder"));
        } else {
            names.push(String::from_str("Untitled Folder ").concat(decimal_string(counter).as_str()));
        }
    }
    names
}

/// The name of the folder the toolbar's new-folder button tries for
/// `counter`: `New Folder` for 1, `New Folder <counter>` after.
pub open spec fn new_folder_name(counter: nat) -> Seq<char> {
    if counter == 1 {
        "New Folder"@
    } else {
        "New Folder "@ + digits(counter, 10)
    }
}

/// The folder names the new-folder button tries, in order: counters 1 to 1000.
pub fn new_folder_candidates() -> (names: Vec<String>)
    ensures
        names@.len() == 1000,
        forall|i: int| 0 <= i < 1000 ==> (#[trigger] names@[i])@ == new_folder_name((i + 1) as nat),
{
    let mut names: Vec<String> = Vec::new();
    for counter in 1..1001u64
        invariant
            names@.len() == counter - 1,
            forall|i: int| 0 <= i < counter - 1 ==> (#[trigger] names@[i])@ == new_folder_name((i + 1) as nat),
    {
        if counter == 1 {
            names.push(String::from_str("New Folder"));
        } else {
            names.push(String::from_str("New Folder ").concat(decimal_string(counter).as_str()));
        }
    }
    names
}

/// Each name `create_new_folder` tries is new: different counters give
/// different names.
pub proof fn lemma_untitled_folder_names_distinct(a: nat, b: nat)
    requires
        a != b,
    ensures
        untitled_folder_name(a) != untitled_folder_name(b),
{
    reveal_strlit("Untitled Folder");
    reveal_strlit("Untitled Folder ");
    lemma_digits_len(a, 10);
    lemma_digits_len(b, 10);
    let p = "Untitled Folder "@;
    assert(a != 0 ==> untitled_folder_name(a).len() == p.len() + digits(a, 10).len());
    assert(b != 0 ==> untitled_folder_name(b).len() == p.len() + digits(b, 10).len());
    assert(untitled_folder_name(0).len() == "Untitled Folder"@.len());
    if a != 0 && b != 0 && untitled_folder_name(a) == untitled_folder_name(b) {
        assert(p + digits(a, 10) + Seq::<char>::empty() =~= untitled_folder_name(a));
        assert(p + digits(b, 10) + Seq::<char>::empty() =~= untitled_folder_name(b));
        lemma_strip_affixes(p, digits(a, 10), digits(b, 10), Seq::<char>::empty());
        lemma_digits_injective(a, b, 10);
    }
}

/// Each name the new-folder button tries is new: different counters give
/// different names.
pub proof fn lemma_new_folder_names_distinct(a: nat, b: nat)
    requires
        a != b,
    ensures
        new_folder_name(a) != new_folder_name(b),
{
    reveal_strlit("New Folder");
    reveal_strlit("New Folder ");
    lemma_digits_len(a, 10);
    lemma_digits_len(b, 10);
    let p = "New Folder "@;
    assert(a != 1 ==> new_folder_name(a).len() == p.len() + digits(a, 10).len());
    assert(b != 1 ==> new_folder_name(b).len() == p.len() + digits(b, 10).len());
    assert(new_folder_name(1).len() == "New Folder"@.len());
    if a != 1 && b != 1 && new_folder_name(a) == new_folder_name(b) {
        assert(p + digits(a, 10) + Seq::<char>::empty() =~= new_folder_name(a));
        assert(p + digits(b, 10) + Seq::<char>::empty() =~= new_folder_name(b));
        lemma_strip_affixes(p, digits(a, 10), digits(b, 10), Seq::<char>::empty());
        lemma_digits_injective(a, b, 10);
    }
}

/// Each retry after a name collision in the trash tries a new name:
/// different counters give different names.
pub proof fn lemma_trash_collision_names_distinct(path: Seq<char>, a: nat, b: nat)
    requires
        a != b,
    ensures
        trash_collision_name(path, a) != trash_collision_name(path, b),
{
    let ext = match path_extension(path) {
        Some(x) => x,
        None => Seq::<char>::empty(),
    };
    let stem = match path_stem(path) {
        Some(s) => s,
        None => "unknown"@,
    };
    let p = if ext.len() == 0 {
        stem + " ("@
    } else {
        stem + "."@ + ext + " ("@
    };
    if trash_collision_name(path, a) == trash_collision_name(path, b) {
        assert(trash_collision_name(path, a) == p + digits(a, 10) + ")"@);
        assert(trash_collision_name(path, b) == p + digits(b, 10) + ")"@);
        lemma_strip_affixes(p, digits(a, 10), digits(b, 10), ")"@);
        lemma_digits_injective(a, b, 10);
    }
}

} // verus!
