//! Unix path arithmetic on strings: the components of a path, its file name,
//! extension and stem, joining, and lexical normalization.

use vstd::prelude::*;
use crate::text::string_from_chars;
use crate::text::chars_of;

verus! {

/// The pieces of `p` between `/` separators, in order (empty pieces included).
pub open spec fn split_slash(p: Seq<char>) -> Seq<Seq<char>>
    decreases p.len(),
{
    if p.len() == 0 {
        seq![Seq::<char>::empty()]
    } else {
        let r = split_slash(p.drop_last());
        if p.last() == '/' {
            r.push(Seq::<char>::empty())
        } else {
            r.update(r.len() - 1, r.last().push(p.last()))
        }
    }
}

/// A piece that names something: not empty and not `.`.
pub open spec fn is_named_piece(s: Seq<char>) -> bool {
    s.len() > 0 && s != seq!['.']
}

/// The `..` piece.
pub open spec fn is_parent_piece(s: Seq<char>) -> bool {
    s == seq!['.', '.']
}

/// The named pieces of a path: what `Path::components` yields after the root,
/// `Normal` and `ParentDir` components, in order.
pub open spec fn segments(p: Seq<char>) -> Seq<Seq<char>> {
    split_slash(p).filter(named_piece_filter())
}

/// `is_named_piece` as a filter predicate.
pub open spec fn named_piece_filter() -> spec_fn(Seq<char>) -> bool {
    |s: Seq<char>| is_named_piece(s)
}

/// The character sequences held by a sequence of character vectors.
pub open spec fn views(v: Seq<Vec<char>>) -> Seq<Seq<char>> {
    Seq::new(v.len(), |i: int| v[i]@)
}

/// What `Path::parent` returns for a path: the path without its last
/// component, or none for a root or an empty path.
pub uninterp spec fn parent_of(p: Seq<char>) -> Option<Seq<char>>;

/// Calls `Path::parent`; the result is `parent_of` of the argument. The parent
/// of a UTF-8 path is a prefix of it, so it converts back to a `String`.
#[verifier::external_body]
pub(crate) fn parent(path: &str) -> (r: Option<String>)
    ensures
        opt_view(r) == parent_of(path@),
{
    std::path::Path::new(path).parent().and_then(|p| p.to_str()).map(|p| p.to_owned())
}

/// `Option<String>` seen as an optional character sequence.
pub open spec fn opt_view(o: Option<String>) -> Option<Seq<char>> {
    match o {
        Some(s) => Some(s@),
        None => None,
    }
}

/// `Path::file_name`: the last component when it is a normal one.
pub open spec fn file_name_of(p: Seq<char>) -> Option<Seq<char>> {
    let s = segments(p);
    if s.len() == 0 || is_parent_piece(s.last()) {
        None
    } else {
        Some(s.last())
    }
}

/// Index of the last occurrence of `c` in `s`, or -1.
pub open spec fn last_index_of(s: Seq<char>, c: char) -> int
    decreases s.len(),
{
    if s.len() == 0 {
        -1
    } else if s.last() == c {
        s.len() - 1
    } else {
        last_index_of(s.drop_last(), c)
    }
}

/// The extension of a file name, as `Path::extension` finds it: the part
/// after the last `.`, unless there is no `.`, the only `.` leads the name,
/// or the name is `..`.
pub open spec fn extension_of_name(name: Seq<char>) -> Option<Seq<char>> {
    let k = last_index_of(name, '.');
    if is_parent_piece(name) || k <= 0 {
        None
    } else {
        Some(name.subrange(k + 1, name.len() as int))
    }
}

/// The stem of a file name, as `Path::file_stem` finds it: the part before
/// the last `.`, or the whole name where `extension_of_name` finds none.
pub open spec fn stem_of_name(name: Seq<char>) -> Seq<char> {
    let k = last_index_of(name, '.');
    if is_parent_piece(name) || k <= 0 {
        name
    } else {
        name.take(k)
    }
}

proof fn lemma_last_dot_before_plain(s: Seq<char>, e: Seq<char>)
    requires
        !e.contains('.'),
    ensures
        last_index_of(s + seq!['.'] + e, '.') == s.len(),
    decreases e.len(),
{
    let n = s + seq!['.'] + e;
    if e.len() == 0 {
        assert(n.last() == '.');
    } else {
        assert(n.last() == e.last());
        assert(n.drop_last() =~= s + seq!['.'] + e.drop_last());
        assert(!e.drop_last().contains('.')) by {
            if e.drop_last().contains('.') {
                let k = choose|k: int| 0 <= k < e.drop_last().len() && e.drop_last()[k] == '.';
                assert(e[k] == '.');
            }
        }
        lemma_last_dot_before_plain(s, e.drop_last());
    }
}

/// A file name made of a non-empty stem, a `.` and a part without a `.` has
/// that part as its extension and that stem as its stem, also where the stem
/// itself starts with `.` (so `.eslintrc.json` has extension `json` and stem
/// `.eslintrc`); `..` alone has none.
pub proof fn lemma_extension_after_last_dot(s: Seq<char>, e: Seq<char>)
    requires
        s.len() > 0,
        !e.contains('.'),
        !(s == seq!['.'] && e.len() == 0),
    ensures
        extension_of_name(s + seq!['.'] + e) == Some(e),
        stem_of_name(s + seq!['.'] + e) == s,
{
    let n = s + seq!['.'] + e;
    lemma_last_dot_before_plain(s, e);
    if is_parent_piece(n) {
        assert(n.len() == 2);
        assert(s.len() == 1 && e.len() == 0);
        assert(s =~= seq![n[0]]);
    }
    assert(n.subrange(s.len() + 1 as int, n.len() as int) =~= e);
    assert(n.take(s.len() as int) =~= s);
}

/// `Path::extension` of a whole path.
pub open spec fn path_extension(p: Seq<char>) -> Option<Seq<char>> {
    match file_name_of(p) {
        Some(n) => extension_of_name(n),
        None => None,
    }
}

/// `Path::file_stem` of a whole path.
pub open spec fn path_stem(p: Seq<char>) -> Option<Seq<char>> {
    match file_name_of(p) {
        Some(n) => Some(stem_of_name(n)),
        None => None,
    }
}

/// `PathBuf::push` of `rel` onto `base` (Unix): an absolute `rel` replaces
/// `base`; otherwise a `/` is put between them unless `base` is empty or
/// already ends with one.
pub open spec fn join_spec(base: Seq<char>, rel: Seq<char>) -> Seq<char> {
    if rel.len() > 0 && rel[0] == '/' {
        rel
    } else if base.len() == 0 || base.last() == '/' {
        base + rel
    } else {
        base + seq!['/'] + rel
    }
}

proof fn lemma_split_nonempty(p: Seq<char>)
    ensures
        split_slash(p).len() >= 1,
    decreases p.len(),
{
    if p.len() > 0 {
        lemma_split_nonempty(p.drop_last());
    }
}

/// Filtering a non-empty sequence: the filtered front, then the last item
/// where it passes.
pub(crate) proof fn lemma_filter_step<A>(s: Seq<A>, pred: spec_fn(A) -> bool)
    requires
        s.len() > 0,
    ensures
        s.filter(pred) == (if pred(s.last()) {
            s.drop_last().filter(pred).push(s.last())
        } else {
            s.drop_last().filter(pred)
        }),
{
    reveal(Seq::filter);
}

fn is_dot(v: &Vec<char>) -> (r: bool)
    ensures
        r == (v@ == seq!['.']),
{
    if v.len() == 1 && v[0] == '.' {
        assert(v@ =~= seq!['.']);
        true
    } else {
        false
    }
}

fn is_dot_dot(v: &Vec<char>) -> (r: bool)
    ensures
        r == is_parent_piece(v@),
{
    if v.len() == 2 && v[0] == '.' && v[1] == '.' {
        assert(v@ =~= seq!['.', '.']);
        true
    } else {
        false
    }
}

fn copy_chars(v: &Vec<char>) -> (r: Vec<char>)
    ensures
        r@ == v@,
{
    let mut r: Vec<char> = Vec::new();
    for i in 0..v.len()
        invariant
            r@ == v@.take(i as int),
    {
        r.push(v[i]);
        assert(v@.take(i + 1) =~= v@.take(i as int).push(v@[i as int]));
    }
    assert(v@.take(v@.len() as int) =~= v@);
    r
}

/// The named pieces of a path (see `segments`).
pub fn segments_of(p: &[char]) -> (segs: Vec<Vec<char>>)
    ensures
        views(segs@) == segments(p@),
{
    let ghost keep = named_piece_filter();
    let mut segs: Vec<Vec<char>> = Vec::new();
    let mut cur: Vec<char> = Vec::new();
    proof {
        assert(p@.take(0) =~= Seq::<char>::empty());
        reveal(Seq::filter);
        assert(split_slash(p@.take(0)).drop_last() =~= Seq::<Seq<char>>::empty());
    }
    for i in 0..p.len()
        invariant
            keep == named_piece_filter(),
            split_slash(p@.take(i as int)).len() >= 1,
            split_slash(p@.take(i as int)).last() == cur@,
            split_slash(p@.take(i as int)).drop_last().filter(keep) == views(segs@),
    {
        let ghost old_split = split_slash(p@.take(i as int));
        assert(p@.take(i + 1).drop_last() =~= p@.take(i as int));
        assert(p@.take(i + 1).last() == p@[i as int]);
        if p[i] == '/' {
            proof {
                lemma_filter_step(old_split, keep);
            }
            let ghost before = segs@;
            let ghost cur_view = cur@;
            if cur.len() > 0 && !is_dot(&cur) {
                segs.push(cur);
                proof {
                    assert(segs@ == before.push(segs@.last()));
                    assert(views(segs@) =~= views(before).push(cur_view));
                }
            }
            cur = Vec::new();
            proof {
                let new_split = split_slash(p@.take(i + 1));
                assert(new_split =~= old_split.push(Seq::<char>::empty()));
                assert(new_split.drop_last() =~= old_split);
                assert(views(segs@) =~= old_split.filter(keep));
            }
        } else {
            cur.push(p[i]);
            proof {
                let new_split = split_slash(p@.take(i + 1));
                assert(new_split.drop_last() =~= old_split.drop_last());
            }
        }
        proof {
            lemma_split_nonempty(p@.take(i + 1));
        }
    }
    proof {
        assert(p@.take(p@.len() as int) =~= p@);
        lemma_filter_step(split_slash(p@), keep);
    }
    let ghost before = segs@;
    let ghost cur_view = cur@;
    if cur.len() > 0 && !is_dot(&cur) {
        segs.push(cur);
        proof {
            assert(segs@ == before.push(segs@.last()));
            assert(views(segs@) =~= views(before).push(cur_view));
        }
    }
    proof {
        assert(views(segs@) =~= split_slash(p@).filter(keep));
    }
    segs
}

/// The path has a `..` component.
pub open spec fn has_parent_piece(p: Seq<char>) -> bool {
    exists|i: int| 0 <= i < segments(p).len() && is_parent_piece(#[trigger] segments(p)[i])
}

/// Whether the path has a `..` component (see `has_parent_piece`).
pub fn has_parent_component(path: &str) -> (r: bool)
    ensures
        r == has_parent_piece(path@),
{
    let c = chars_of(path);
    let segs = segments_of(c.as_slice());
    for i in 0..segs.len()
        invariant
            views(segs@) == segments(path@),
            forall|j: int| 0 <= j < i ==> !is_parent_piece(#[trigger] views(segs@)[j]),
    {
        if is_dot_dot(&segs[i]) {
            assert(views(segs@)[i as int] == segs@[i as int]@);
            return true;
        }
        assert(views(segs@)[i as int] == segs@[i as int]@);
    }
    false
}

fn file_name_chars(p: &[char]) -> (r: Option<Vec<char>>)
    ensures
        match r {
            Some(v) => file_name_of(p@) == Some(v@),
            None => file_name_of(p@) is None,
        },
{
    let segs = segments_of(p);
    let n = segs.len();
    if n == 0 {
        return None;
    }
    proof {
        assert(views(segs@).last() == segs@[n - 1]@);
    }
    if is_dot_dot(&segs[n - 1]) {
        None
    } else {
        Some(copy_chars(&segs[n - 1]))
    }
}

/// `Path::file_name` for a path held as a string.
pub fn file_name(path: &str) -> (r: Option<String>)
    ensures
        opt_view(r) == file_name_of(path@),
{
    let p = chars_of(path);
    match file_name_chars(p.as_slice()) {
        Some(v) => Some(string_from_chars(v.as_slice())),
        None => None,
    }
}

proof fn lemma_last_index_range(s: Seq<char>, c: char)
    ensures
        -1 <= last_index_of(s, c) < s.len(),
        last_index_of(s, c) >= 0 ==> s[last_index_of(s, c)] == c,
    decreases s.len(),
{
    if s.len() > 0 {
        lemma_last_index_range(s.drop_last(), c);
    }
}

fn last_dot(s: &[char]) -> (k: Option<usize>)
    ensures
        match k {
            Some(i) => i == last_index_of(s@, '.') && i < s@.len(),
            None => last_index_of(s@, '.') == -1,
        },
{
    proof {
        lemma_last_index_range(s@, '.');
    }
    let mut i: usize = s.len();
    assert(s@.take(s@.len() as int) =~= s@);
    while i > 0 && s[i - 1] != '.'
        invariant
            i <= s@.len(),
            last_index_of(s@, '.') == last_index_of(s@.take(i as int), '.'),
        decreases i,
    {
        assert(s@.take(i as int).drop_last() =~= s@.take(i - 1));
        i -= 1;
    }
    if i == 0 {
        assert(s@.take(0).len() == 0);
        None
    } else {
        assert(s@.take(i as int).last() == '.');
        Some(i - 1)
    }
}

fn slice_from(s: &[char], from: usize) -> (r: Vec<char>)
    requires
        from <= s@.len(),
    ensures
        r@ == s@.subrange(from as int, s@.len() as int),
{
    let mut r: Vec<char> = Vec::new();
    let mut i = from;
    while i < s.len()
        invariant
            from <= i <= s@.len(),
            r@ == s@.subrange(from as int, i as int),
        decreases s@.len() - i,
    {
        r.push(s[i]);
        assert(s@.subrange(from as int, i + 1) =~= s@.subrange(from as int, i as int).push(
            s@[i as int],
        ));
        i += 1;
    }
    r
}

/// The extension of a file name (see `extension_of_name`).
pub fn name_extension(name: &str) -> (r: Option<String>)
    ensures
        opt_view(r) == extension_of_name(name@),
{
    let v = chars_of(name);
    let k = last_dot(v.as_slice());
    let pp = v.len() == 2 && v[0] == '.' && v[1] == '.';
    proof {
        if pp {
            assert(v@ =~= seq!['.', '.']);
        }
    }
    match k {
        Some(i) if !pp && i > 0 => {
            let e = slice_from(v.as_slice(), i + 1);
            Some(string_from_chars(e.as_slice()))
        },
        _ => None,
    }
}

/// The extension of a file name, or an empty string where it has none (as
/// `unwrap_or_default` gives it).
pub fn extension_of(name: &str) -> (r: String)
    ensures
        r@ == match extension_of_name(name@) {
            Some(e) => e,
            None => Seq::<char>::empty(),
        },
{
    match name_extension(name) {
        Some(e) => e,
        None => String::new(),
    }
}

/// The stem of a file name (see `stem_of_name`).
pub fn stem_of(name: &str) -> (r: String)
    ensures
        r@ == stem_of_name(name@),
{
    let v = chars_of(name);
    let k = last_dot(v.as_slice());
    let pp = v.len() == 2 && v[0] == '.' && v[1] == '.';
    proof {
        if pp {
            assert(v@ =~= seq!['.', '.']);
        }
    }
    match k {
        Some(k) if !pp && k > 0 => {
            let mut r: Vec<char> = Vec::new();
            let mut i: usize = 0;
            while i < k
                invariant
                    0 < k < v@.len(),
                    i <= k,
                    r@ == v@.take(i as int),
                decreases k - i,
            {
                r.push(v[i]);
                assert(v@.take(i + 1) =~= v@.take(i as int).push(v@[i as int]));
                i += 1;
            }
            string_from_chars(r.as_slice())
        },
        _ => string_from_chars(v.as_slice()),
    }
}

/// `Path::extension` for a path held as a string.
pub fn extension(path: &str) -> (r: Option<String>)
    ensures
        opt_view(r) == path_extension(path@),
{
    match file_name(path) {
        Some(n) => name_extension(n.as_str()),
        None => None,
    }
}

/// `Path::file_stem` for a path held as a string.
pub fn file_stem(path: &str) -> (r: Option<String>)
    ensures
        opt_view(r) == path_stem(path@),
{
    match file_name(path) {
        Some(n) => Some(stem_of(n.as_str())),
        None => None,
    }
}

/// Joins `rel` onto `base` as `Path::join` does on Unix (see `join_spec`).
pub fn join(base: &str, rel: &str) -> (r: String)
    ensures
        r@ == join_spec(base@, rel@),
{
    let b = chars_of(base);
    let q = chars_of(rel);
    if q.len() > 0 && q[0] == '/' {
        return rel.to_owned();
    }
    if b.len() == 0 || b[b.len() - 1] == '/' {
        String::from_str(base).concat(rel)
    } else {
        let with_sep = String::from_str(base).concat("/");
        proof {
            reveal_strlit("/");
        }
        with_sep.concat(rel)
    }
}

} // verus!

verus! {

/// The result of folding a path's named pieces as lexical normalization does:
/// `..` removes the last kept piece; with nothing to remove (nothing kept, or
/// only `..` kept) it is dropped at the root and kept in a relative path, so
/// the result names the same place. Any other piece is kept. The root stays.
pub open spec fn fold_pieces(rooted: bool, kept: Seq<Seq<char>>, rest: Seq<Seq<char>>) -> (bool, Seq<Seq<char>>)
    decreases rest.len(),
{
    if rest.len() == 0 {
        (rooted, kept)
    } else if is_parent_piece(rest[0]) {
        if kept.len() > 0 && !is_parent_piece(kept.last()) {
            fold_pieces(rooted, kept.drop_last(), rest.drop_first())
        } else if rooted {
            fold_pieces(rooted, kept, rest.drop_first())
        } else {
            fold_pieces(rooted, kept.push(rest[0]), rest.drop_first())
        }
    } else {
        fold_pieces(rooted, kept.push(rest[0]), rest.drop_first())
    }
}

/// Pieces joined with `/` between them.
pub open spec fn join_slash(pieces: Seq<Seq<char>>) -> Seq<char>
    decreases pieces.len(),
{
    if pieces.len() == 0 {
        Seq::<char>::empty()
    } else if pieces.len() == 1 {
        pieces[0]
    } else {
        join_slash(pieces.drop_last()) + seq!['/'] + pieces.last()
    }
}

/// A path starting at the root.
pub open spec fn is_rooted(p: Seq<char>) -> bool {
    p.len() > 0 && p[0] == '/'
}

/// The path made of an optional root and pieces, as collecting components
/// into a `PathBuf` writes it.
pub open spec fn render_path(rooted: bool, pieces: Seq<Seq<char>>) -> Seq<char> {
    (if rooted {
        seq!['/']
    } else {
        Seq::<char>::empty()
    }) + join_slash(pieces)
}

/// Lexical normalization of a path: `.` pieces and empty pieces dropped,
/// each `..` removing what precedes it, rendered back as a path.
pub open spec fn normalize_lexically(p: Seq<char>) -> Seq<char> {
    let r = fold_pieces(is_rooted(p), Seq::empty(), segments(p));
    render_path(r.0, r.1)
}

fn render(rooted: bool, pieces: &Vec<Vec<char>>) -> (r: Vec<char>)
    ensures
        r@ == render_path(rooted, views(pieces@)),
{
    let ghost ps = views(pieces@);
    let mut out: Vec<char> = Vec::new();
    if rooted {
        out.push('/');
    }
    let ghost prefix = out@;
    assert(prefix == (if rooted { seq!['/'] } else { Seq::<char>::empty() }));
    assert(ps.take(0) =~= Seq::<Seq<char>>::empty());
    assert(out@ =~= prefix + join_slash(ps.take(0)));
    for i in 0..pieces.len()
        invariant
            ps == views(pieces@),
            out@ == prefix + join_slash(ps.take(i as int)),
    {
        let ghost before = out@;
        if i > 0 {
            out.push('/');
        }
        let piece = &pieces[i];
        for j in 0..piece.len()
            invariant
                out@ == before + (if i > 0 { seq!['/'] } else { Seq::<char>::empty() }) + piece@.take(j as int),
        {
            out.push(piece[j]);
            assert(piece@.take(j + 1) =~= piece@.take(j as int).push(piece@[j as int]));
        }
        proof {
            assert(piece@.take(piece@.len() as int) =~= piece@);
            assert(ps.take(i + 1).drop_last() =~= ps.take(i as int));
            assert(ps.take(i + 1).last() == piece@);
            if i == 0 {
                assert(ps.take(1) =~= seq![piece@]);
                assert(out@ =~= prefix + join_slash(ps.take(i + 1)));
            } else {
                assert(out@ =~= prefix + join_slash(ps.take(i + 1)));
            }
        }
    }
    assert(ps.take(pieces@.len() as int) =~= ps);
    out
}

/// Lexical normalization of a path (see `normalize_lexically`).
pub fn normalize_lexical(path: &str) -> (r: String)
    ensures
        r@ == normalize_lexically(path@),
{
    let p = chars_of(path);
    let rooted0 = p.len() > 0 && p[0] == '/';
    let segs = segments_of(p.as_slice());
    let ghost all = views(segs@);
    let rooted = rooted0;
    let mut kept: Vec<Vec<char>> = Vec::new();
    assert(all.skip(0) =~= all);
    assert(views(kept@) =~= Seq::<Seq<char>>::empty());
    for i in 0..segs.len()
        invariant
            all == views(segs@),
            rooted == rooted0,
            fold_pieces(rooted0, Seq::empty(), all) == fold_pieces(rooted, views(kept@), all.skip(i as int)),
    {
        assert(all.skip(i as int)[0] == segs@[i as int]@);
        assert(all.skip(i as int).drop_first() =~= all.skip(i + 1));
        let ghost before = kept@;
        if is_dot_dot(&segs[i]) {
            let removable = kept.len() > 0 && !is_dot_dot(&kept[kept.len() - 1]);
            proof {
                if kept.len() > 0 {
                    assert(views(before).last() == before.last()@);
                }
            }
            if removable {
                kept.pop();
                assert(views(kept@) =~= views(before).drop_last());
            } else if !rooted {
                kept.push(copy_chars(&segs[i]));
                assert(views(kept@) =~= views(before).push(all[i as int]));
            }
        } else {
            kept.push(copy_chars(&segs[i]));
            assert(views(kept@) =~= views(before).push(all[i as int]));
        }
    }
    assert(all.skip(segs@.len() as int) =~= Seq::<Seq<char>>::empty());
    let out = render(rooted, &kept);
    string_from_chars(out.as_slice())
}

} // verus!

verus! {

/// A piece that names an entry or its parent and holds no separator.
pub open spec fn is_plain_piece(s: Seq<char>) -> bool {
    is_named_piece(s) && !s.contains('/')
}

/// The pieces of a normalized path: plain pieces, any `..` before all other
/// pieces, and no `..` at all after a root.
pub open spec fn normal_pieces(rooted: bool, kept: Seq<Seq<char>>) -> bool {
    &&& forall|i: int| 0 <= i < kept.len() ==> is_plain_piece(#[trigger] kept[i])
    &&& forall|i: int, j: int|
        0 <= i < j < kept.len() && is_parent_piece(#[trigger] kept[j]) ==> is_parent_piece(
            #[trigger] kept[i],
        )
    &&& rooted ==> forall|i: int| 0 <= i < kept.len() ==> !is_parent_piece(#[trigger] kept[i])
}

proof fn lemma_split_concat(x: Seq<char>, y: Seq<char>)
    ensures
        split_slash(x + seq!['/'] + y) == split_slash(x) + split_slash(y),
    decreases y.len(),
{
    lemma_split_nonempty(x);
    lemma_split_nonempty(y);
    let xy = x + seq!['/'] + y;
    if y.len() == 0 {
        assert(xy.drop_last() =~= x);
        assert(split_slash(xy) =~= split_slash(x) + split_slash(y));
    } else {
        let y1 = y.drop_last();
        assert(xy.drop_last() =~= x + seq!['/'] + y1);
        lemma_split_concat(x, y1);
        lemma_split_nonempty(y1);
        assert(split_slash(xy) =~= split_slash(x) + split_slash(y));
    }
}

proof fn lemma_split_no_slash(y: Seq<char>)
    requires
        !y.contains('/'),
    ensures
        split_slash(y) == seq![y],
    decreases y.len(),
{
    if y.len() == 0 {
        assert(y =~= Seq::<char>::empty());
        assert(split_slash(y) =~= seq![y]);
    } else {
        let y1 = y.drop_last();
        assert(!y1.contains('/')) by {
            if y1.contains('/') {
                let k = choose|k: int| 0 <= k < y1.len() && y1[k] == '/';
                assert(y[k] == '/');
            }
        }
        assert(y[y.len() - 1] != '/');
        lemma_split_no_slash(y1);
        assert(y1.push(y.last()) =~= y);
        assert(y.drop_last() == y1);
        assert(split_slash(y) == split_slash(y1).update(0, y1.push(y.last())));
        assert(split_slash(y) =~= seq![y]);
    }
}

proof fn lemma_split_join(st: Seq<Seq<char>>)
    requires
        st.len() > 0,
        forall|i: int| 0 <= i < st.len() ==> !(#[trigger] st[i]).contains('/'),
    ensures
        split_slash(join_slash(st)) == st,
    decreases st.len(),
{
    if st.len() == 1 {
        lemma_split_no_slash(st[0]);
        assert(split_slash(join_slash(st)) =~= st);
    } else {
        let s1 = st.drop_last();
        assert(forall|i: int| 0 <= i < s1.len() ==> #[trigger] s1[i] == st[i]);
        lemma_split_join(s1);
        lemma_split_concat(join_slash(s1), st.last());
        lemma_split_no_slash(st.last());
        assert(split_slash(join_slash(st)) =~= st);
    }
}

proof fn lemma_filter_keeps_all(s: Seq<Seq<char>>)
    requires
        forall|i: int| 0 <= i < s.len() ==> is_named_piece(#[trigger] s[i]),
    ensures
        s.filter(named_piece_filter()) == s,
    decreases s.len(),
{
    reveal(Seq::filter);
    if s.len() > 0 {
        let s1 = s.drop_last();
        assert(forall|i: int| 0 <= i < s1.len() ==> #[trigger] s1[i] == s[i]);
        lemma_filter_keeps_all(s1);
        assert(s1.push(s.last()) =~= s);
    }
}

proof fn lemma_split_pieces_have_no_slash(p: Seq<char>)
    ensures
        forall|i: int| 0 <= i < split_slash(p).len() ==> !(#[trigger] split_slash(p)[i]).contains('/'),
    decreases p.len(),
{
    lemma_split_nonempty(p);
    if p.len() > 0 {
        let r = split_slash(p.drop_last());
        lemma_split_pieces_have_no_slash(p.drop_last());
        lemma_split_nonempty(p.drop_last());
        if p.last() != '/' {
            let last = r.last().push(p.last());
            assert(!last.contains('/')) by {
                if last.contains('/') {
                    let k = choose|k: int| 0 <= k < last.len() && last[k] == '/';
                    if k < r.last().len() {
                        assert(r.last()[k] == '/');
                        assert(r[r.len() - 1].contains('/'));
                    }
                }
            }
        } else {
            assert(!Seq::<char>::empty().contains('/'));
        }
    }
}

proof fn lemma_segments_are_named(p: Seq<char>)
    ensures
        forall|i: int| 0 <= i < segments(p).len() ==> {
            &&& is_named_piece(#[trigger] segments(p)[i])
            &&& !segments(p)[i].contains('/')
        },
{
    broadcast use vstd::seq_lib::group_filter_ensures;
    lemma_split_pieces_have_no_slash(p);
    let s = split_slash(p);
    let f = s.filter(named_piece_filter());
    assert forall|i: int| 0 <= i < f.len() implies is_named_piece(#[trigger] f[i]) && !f[i].contains('/') by {
        assert(named_piece_filter()(f[i]));
        s.lemma_filter_contains_rev(named_piece_filter(), f[i]);
        assert(s.contains(f[i]));
    }
}

proof fn lemma_fold_keeps_normal(rooted: bool, kept: Seq<Seq<char>>, rest: Seq<Seq<char>>)
    requires
        normal_pieces(rooted, kept),
        forall|i: int| 0 <= i < rest.len() ==> is_plain_piece(#[trigger] rest[i]),
    ensures
        normal_pieces(rooted, fold_pieces(rooted, kept, rest).1),
        fold_pieces(rooted, kept, rest).0 == rooted,
    decreases rest.len(),
{
    if rest.len() > 0 {
        let r1 = rest.drop_first();
        assert(forall|i: int| 0 <= i < r1.len() ==> #[trigger] r1[i] == rest[i + 1]);
        assert(is_plain_piece(rest[0]));
        if is_parent_piece(rest[0]) {
            if kept.len() > 0 && !is_parent_piece(kept.last()) {
                let k1 = kept.drop_last();
                assert(forall|i: int| 0 <= i < k1.len() ==> #[trigger] k1[i] == kept[i]);
                assert(normal_pieces(rooted, k1));
                lemma_fold_keeps_normal(rooted, k1, r1);
            } else if rooted {
                lemma_fold_keeps_normal(rooted, kept, r1);
            } else {
                let k1 = kept.push(rest[0]);
                assert forall|i: int| 0 <= i < k1.len() implies is_parent_piece(#[trigger] k1[i]) by {
                    if i < kept.len() {
                        assert(k1[i] == kept[i]);
                        assert(is_parent_piece(kept[kept.len() - 1]));
                        if i < kept.len() - 1 {
                            assert(is_parent_piece(kept[kept.len() - 1]) ==> is_parent_piece(kept[i]));
                        }
                    }
                }
                assert(normal_pieces(rooted, k1));
                lemma_fold_keeps_normal(rooted, k1, r1);
            }
        } else {
            let k1 = kept.push(rest[0]);
            assert(forall|i: int| 0 <= i < kept.len() ==> #[trigger] k1[i] == kept[i]);
            assert(normal_pieces(rooted, k1));
            lemma_fold_keeps_normal(rooted, k1, r1);
        }
    }
}

proof fn lemma_fold_normal(rooted: bool, kept: Seq<Seq<char>>, rest: Seq<Seq<char>>)
    requires
        normal_pieces(rooted, kept + rest),
    ensures
        fold_pieces(rooted, kept, rest) == (rooted, kept + rest),
    decreases rest.len(),
{
    let all = kept + rest;
    if rest.len() == 0 {
        assert(kept + rest =~= kept);
    } else {
        let r1 = rest.drop_first();
        let k1 = kept.push(rest[0]);
        assert(k1 + r1 =~= all);
        assert(all[kept.len() as int] == rest[0]);
        if is_parent_piece(rest[0]) {
            assert(!rooted);
            if kept.len() > 0 {
                assert(all[kept.len() - 1] == kept.last());
                assert(is_parent_piece(kept.last()));
            }
        }
        lemma_fold_normal(rooted, k1, r1);
    }
}

proof fn lemma_join_starts_with_first(st: Seq<Seq<char>>)
    requires
        st.len() > 0,
        st[0].len() > 0,
    ensures
        join_slash(st).len() > 0,
        join_slash(st)[0] == st[0][0],
    decreases st.len(),
{
    if st.len() > 1 {
        let s1 = st.drop_last();
        lemma_join_starts_with_first(s1);
    }
}

proof fn lemma_render_segments(rooted: bool, st: Seq<Seq<char>>)
    requires
        forall|i: int| 0 <= i < st.len() ==> is_plain_piece(#[trigger] st[i]),
    ensures
        segments(render_path(rooted, st)) == st,
        is_rooted(render_path(rooted, st)) == rooted,
{
    let o = render_path(rooted, st);
    let e = Seq::<char>::empty();
    assert forall|i: int| 0 <= i < st.len() implies !(#[trigger] st[i]).contains('/') by {
        assert(is_plain_piece(st[i]));
    }
    let f = named_piece_filter();
    assert(!f(e));
    lemma_filter_step(seq![e], f);
    assert(seq![e].drop_last() =~= Seq::<Seq<char>>::empty());
    assert(Seq::<Seq<char>>::empty().filter(f) =~= Seq::<Seq<char>>::empty()) by {
        reveal(Seq::filter);
    }
    assert(split_slash(e) =~= seq![e]);
    if st.len() == 0 {
        if rooted {
            assert(o =~= e + seq!['/'] + e);
            lemma_split_concat(e, e);
            assert(split_slash(o) =~= seq![e, e]);
            lemma_filter_step(seq![e, e], f);
            assert(seq![e, e].drop_last() =~= seq![e]);
            assert(segments(o) =~= st);
        } else {
            assert(o =~= e);
            assert(segments(o) =~= st);
        }
    } else {
        lemma_split_join(st);
        lemma_filter_keeps_all(st);
        lemma_join_starts_with_first(st);
        if rooted {
            assert(o =~= e + seq!['/'] + join_slash(st));
            lemma_split_concat(e, join_slash(st));
            Seq::filter_distributes_over_add(seq![e], st, f);
            assert(seq![e] + st =~= split_slash(o));
            assert(Seq::<Seq<char>>::empty() + st =~= st);
            assert(segments(o) =~= st);
        } else {
            assert(o =~= join_slash(st));
        }
    }
}

} // verus!

verus! {

/// Lexical normalization is idempotent: normalizing a normalized path
/// changes nothing. It keeps the path rooted or relative, and in its result
/// `..` pieces only lead a relative path.
pub proof fn lemma_normalize_idempotent(p: Seq<char>)
    ensures
        normalize_lexically(normalize_lexically(p)) == normalize_lexically(p),
        is_rooted(normalize_lexically(p)) == is_rooted(p),
        normal_pieces(is_rooted(p), segments(normalize_lexically(p))),
{
    let r = fold_pieces(is_rooted(p), Seq::empty(), segments(p));
    lemma_segments_are_named(p);
    assert forall|i: int| 0 <= i < segments(p).len() implies is_plain_piece(#[trigger] segments(p)[i]) by {
    }
    lemma_fold_keeps_normal(is_rooted(p), Seq::empty(), segments(p));
    lemma_render_segments(r.0, r.1);
    assert(Seq::<Seq<char>>::empty() + r.1 =~= r.1);
    lemma_fold_normal(r.0, Seq::empty(), r.1);
}

} // verus!

verus! {

/// The path starts with a `.` component (`.` alone or `./...`), which
/// `Path::components` yields as `CurDir`.
pub open spec fn has_leading_cur_dir(p: Seq<char>) -> bool {
    !is_rooted(p) && p.len() > 0 && p[0] == '.' && (p.len() == 1 || p[1] == '/')
}

/// Two paths with the same components, as `==` on `Path` compares them:
/// both rooted or neither, both starting with `.` or neither, and the same
/// named pieces (so `/a//b/` and `/a/./b` name the same path).
pub open spec fn same_path(a: Seq<char>, b: Seq<char>) -> bool {
    &&& is_rooted(a) == is_rooted(b)
    &&& has_leading_cur_dir(a) == has_leading_cur_dir(b)
    &&& segments(a) == segments(b)
}

/// Some path in the sequence is the same path as `p`.
pub open spec fn contains_path(s: Seq<Seq<char>>, p: Seq<char>) -> bool {
    exists|i: int| 0 <= i < s.len() && same_path(#[trigger] s[i], p)
}

/// No two paths in the sequence are the same path.
pub open spec fn paths_distinct(s: Seq<Seq<char>>) -> bool {
    forall|i: int, j: int| 0 <= i < j < s.len() ==> !same_path(#[trigger] s[i], #[trigger] s[j])
}

/// `==` on paths (see `same_path`).
pub fn paths_equal(a: &str, b: &str) -> (r: bool)
    ensures
        r == same_path(a@, b@),
{
    let ca = chars_of(a);
    let cb = chars_of(b);
    let ra = ca.len() > 0 && ca[0] == '/';
    let rb = cb.len() > 0 && cb[0] == '/';
    let la = !ra && ca.len() > 0 && ca[0] == '.' && (ca.len() == 1 || ca[1] == '/');
    let lb = !rb && cb.len() > 0 && cb[0] == '.' && (cb.len() == 1 || cb[1] == '/');
    if ra != rb || la != lb {
        return false;
    }
    let sa = segments_of(ca.as_slice());
    let sb = segments_of(cb.as_slice());
    if sa.len() != sb.len() {
        assert(views(sa@).len() != views(sb@).len());
        return false;
    }
    for i in 0..sa.len()
        invariant
            sa@.len() == sb@.len(),
            views(sa@) == segments(a@),
            views(sb@) == segments(b@),
            forall|j: int| 0 <= j < i ==> views(sa@)[j] == views(sb@)[j],
    {
        if crate::text::lex_compare(sa[i].as_slice(), sb[i].as_slice()) != 0 {
            assert(views(sa@)[i as int] == sa@[i as int]@);
            assert(views(sb@)[i as int] == sb@[i as int]@);
            assert(views(sa@)[i as int] != views(sb@)[i as int]);
            assert(segments(a@) != segments(b@));
            return false;
        }
    }
    assert(views(sa@) =~= views(sb@));
    true
}

/// `same_path` is an equivalence: reflexive, symmetric and transitive.
pub proof fn lemma_same_path_equivalence(a: Seq<char>, b: Seq<char>, c: Seq<char>)
    ensures
        same_path(a, a),
        same_path(a, b) ==> same_path(b, a),
        same_path(a, b) && same_path(b, c) ==> same_path(a, c),
{
}

} // verus!
