//! Character-level helpers on strings: conversion to and from character
//! vectors, lexicographic order, substring search and case folding.

use vstd::prelude::*;

verus! {

broadcast use vstd::string::group_string_axioms;

/// What `str::to_lowercase` returns for a string (full Unicode case mapping).
pub uninterp spec fn lowercase(s: Seq<char>) -> Seq<char>;

/// Calls `str::to_lowercase`; the result is `lowercase` of the argument.
#[verifier::external_body]
pub(crate) fn to_lowercase(s: &str) -> (r: String)
    ensures
        r@ == lowercase(s@),
{
    s.to_lowercase()
}

/// Builds a `String` from characters (`String: FromIterator<&char>`).
#[verifier::external_body]
pub(crate) fn string_from_chars(v: &[char]) -> (s: String)
    ensures
        s@ == v@,
{
    v.iter().collect()
}

/// The characters of a string slice, in order.
pub fn chars_of(s: &str) -> (v: Vec<char>)
    ensures
        v@ == s@,
{
    let mut v: Vec<char> = Vec::new();
    for c in it: s.chars()
        invariant
            it.seq() == s@,
            v@ == it.seq().take(it.index() as int),
    {
        v.push(c);
    }
    v
}


/// Strict lexicographic order on character sequences, characters compared by
/// code point. On UTF-8 strings this is the order of `Ord for str`.
pub open spec fn lex_less(a: Seq<char>, b: Seq<char>) -> bool
    decreases a.len(),
{
    if a.len() == 0 {
        b.len() > 0
    } else if b.len() == 0 {
        false
    } else if a[0] == b[0] {
        lex_less(a.drop_first(), b.drop_first())
    } else {
        (a[0] as int) < (b[0] as int)
    }
}

/// `lex_less` never holds of a sequence and itself.
pub proof fn lemma_lex_irreflexive(a: Seq<char>)
    ensures
        !lex_less(a, a),
    decreases a.len(),
{
    if a.len() > 0 {
        lemma_lex_irreflexive(a.drop_first());
    }
}

/// `lex_less` is transitive.
pub proof fn lemma_lex_transitive(a: Seq<char>, b: Seq<char>, c: Seq<char>)
    requires
        lex_less(a, b),
        lex_less(b, c),
    ensures
        lex_less(a, c),
    decreases a.len(),
{
    if a.len() > 0 && b.len() > 0 && c.len() > 0 {
        if a[0] == b[0] && b[0] == c[0] {
            lemma_lex_transitive(a.drop_first(), b.drop_first(), c.drop_first());
        }
    }
}

/// Two different sequences are ordered one way or the other.
pub proof fn lemma_lex_total(a: Seq<char>, b: Seq<char>)
    ensures
        a == b || lex_less(a, b) || lex_less(b, a),
    decreases a.len(),
{
    if a.len() > 0 && b.len() > 0 {
        if a[0] == b[0] {
            lemma_lex_total(a.drop_first(), b.drop_first());
            if a.drop_first() == b.drop_first() {
                assert(a =~= seq![a[0]] + a.drop_first());
                assert(b =~= seq![b[0]] + b.drop_first());
            }
        } else {
            assert((a[0] as int) != (b[0] as int));
        }
    } else if a.len() == 0 && b.len() == 0 {
        assert(a =~= b);
    }
}

/// Compares two character sequences: `Less`, `Equal` or `Greater` as the
/// first is before, equal to or after the second in `lex_less` order.
pub fn lex_compare(a: &[char], b: &[char]) -> (r: i8)
    ensures
        r == -1 <==> lex_less(a@, b@),
        r == 0 <==> a@ == b@,
        r == 1 <==> lex_less(b@, a@),
        -1 <= r <= 1,
{
    let mut i: usize = 0;
    assert(a@.skip(0) =~= a@);
    assert(b@.skip(0) =~= b@);
    while i < a.len() && i < b.len() && a[i] == b[i]
        invariant
            i <= a@.len(),
            i <= b@.len(),
            a@.take(i as int) == b@.take(i as int),
            lex_less(a@, b@) == lex_less(a@.skip(i as int), b@.skip(i as int)),
            lex_less(b@, a@) == lex_less(b@.skip(i as int), a@.skip(i as int)),
        decreases a@.len() - i,
    {
        assert(a@.skip(i as int).drop_first() =~= a@.skip(i + 1));
        assert(b@.skip(i as int).drop_first() =~= b@.skip(i + 1));
        assert(a@.take(i + 1) =~= a@.take(i as int).push(a@[i as int]));
        assert(b@.take(i + 1) =~= b@.take(i as int).push(b@[i as int]));
        i += 1;
    }
    proof {
        lemma_lex_irreflexive(a@);
        lemma_lex_irreflexive(b@);
    }
    if i == a.len() && i == b.len() {
        assert(a@ =~= a@.take(i as int));
        assert(b@ =~= b@.take(i as int));
        0
    } else if i == a.len() {
        assert(a@.skip(i as int).len() == 0);
        -1
    } else if i == b.len() {
        assert(b@.skip(i as int).len() == 0);
        1
    } else {
        assert(a@.skip(i as int)[0] == a@[i as int]);
        assert(b@.skip(i as int)[0] == b@[i as int]);
        if a[i] < b[i] {
            assert(a@ != b@);
            -1
        } else {
            assert(a@ != b@);
            1
        }
    }
}

/// `needle` occurs in `hay` starting at position `i`.
pub open spec fn occurs_at(hay: Seq<char>, needle: Seq<char>, i: int) -> bool {
    0 <= i && i + needle.len() <= hay.len() && hay.subrange(i, i + needle.len()) == needle
}

/// `needle` occurs somewhere in `hay` (the empty sequence occurs everywhere).
pub open spec fn contains_seq(hay: Seq<char>, needle: Seq<char>) -> bool {
    exists|i: int| occurs_at(hay, needle, i)
}

/// Substring search, as `str::contains` with a string pattern.
pub fn contains_chars(hay: &[char], needle: &[char]) -> (r: bool)
    ensures
        r == contains_seq(hay@, needle@),
{
    if needle.len() > hay.len() {
        assert forall|i: int| !occurs_at(hay@, needle@, i) by {}
        return false;
    }
    let last = hay.len() - needle.len();
    let mut start: usize = 0;
    while start <= last
        invariant
            last == hay@.len() - needle@.len(),
            start <= last + 1,
            forall|i: int| 0 <= i < start ==> !occurs_at(hay@, needle@, i),
        decreases last + 1 - start,
    {
        let mut k: usize = 0;
        while k < needle.len() && hay[start + k] == needle[k]
            invariant
                start <= last,
                last == hay@.len() - needle@.len(),
                hay.len() == last + needle.len(),
                k <= needle@.len(),
                forall|j: int| 0 <= j < k ==> hay@[start + j] == needle@[j],
            decreases needle@.len() - k,
        {
            k += 1;
        }
        if k == needle.len() {
            assert(hay@.subrange(start as int, start + needle@.len()) =~= needle@);
            assert(occurs_at(hay@, needle@, start as int));
            return true;
        }
        assert(hay@.subrange(start as int, start + needle@.len())[k as int] != needle@[k as int]);
        start += 1;
    }
    assert forall|i: int| !occurs_at(hay@, needle@, i) by {
        if 0 <= i && i + needle@.len() <= hay@.len() {
            assert(i < start);
        }
    }
    false
}

/// The character for a digit value below sixteen (lowercase for ten and up).
pub open spec fn digit_char(d: nat) -> char {
    if d < 10 {
        (48 + d) as char
    } else {
        (87 + d) as char
    }
}

proof fn lemma_div_shrinks(n: nat, base: nat)
    requires
        base >= 2,
        n >= base,
    ensures
        n / base < n,
{
    assert(n / base < n) by (nonlinear_arith)
        requires
            base >= 2,
            n >= base,
    ;
}

/// The representation of `n` in base `base`, most significant digit first,
/// without leading zeros (a single `0` for zero).
pub open spec fn digits(n: nat, base: nat) -> Seq<char>
    decreases n,
{
    if base < 2 || base > 16 || n < base {
        seq![digit_char(n % 16)]
    } else {
        proof {
            assert(n / base < n) by (nonlinear_arith)
                requires
                    base >= 2,
                    n >= base,
            ;
        }
        digits(n / base, base).push(digit_char(n % base))
    }
}

fn digit(d: u64) -> (c: char)
    requires
        d < 16,
    ensures
        c == digit_char(d as nat),
{
    let table: [char; 16] = [
        '0', '1', '2', '3', '4', '5', '6', '7', '8', '9', 'a', 'b', 'c', 'd', 'e', 'f',
    ];
    assert(table@[0] == '0' && table@[1] == '1' && table@[2] == '2' && table@[3] == '3');
    assert(table@[4] == '4' && table@[5] == '5' && table@[6] == '6' && table@[7] == '7');
    assert(table@[8] == '8' && table@[9] == '9' && table@[10] == 'a' && table@[11] == 'b');
    assert(table@[12] == 'c' && table@[13] == 'd' && table@[14] == 'e' && table@[15] == 'f');
    table[d as usize]
}

/// Writes `n` in base `base` (as `format!("{}", n)` for ten and
/// `format!("{:x}", n)` for sixteen).
pub fn format_digits(n: u64, base: u64) -> (s: Vec<char>)
    requires
        2 <= base <= 16,
    ensures
        s@ == digits(n as nat, base as nat),
    decreases n,
{
    if n < base {
        let mut v: Vec<char> = Vec::new();
        v.push(digit(n % 16));
        v
    } else {
        proof {
            lemma_div_shrinks(n as nat, base as nat);
        }
        let mut v = format_digits(n / base, base);
        v.push(digit(n % base));
        v
    }
}

/// Decimal notation of a number, as `format!("{}", n)`.
pub fn decimal_string(n: u64) -> (s: String)
    ensures
        s@ == digits(n as nat, 10),
{
    let v = format_digits(n, 10);
    string_from_chars(v.as_slice())
}

/// A number has at least one digit, and at least two from the base up.
pub proof fn lemma_digits_len(n: nat, base: nat)
    requires
        2 <= base <= 16,
    ensures
        digits(n, base).len() >= 1,
        n >= base ==> digits(n, base).len() >= 2,
    decreases n,
{
    if n >= base {
        lemma_div_shrinks(n, base);
        lemma_digits_len(n / base, base);
    }
}

proof fn lemma_digit_char_injective(a: nat, b: nat)
    requires
        a < 16,
        b < 16,
        digit_char(a) == digit_char(b),
    ensures
        a == b,
{
    assert((digit_char(a) as int) == (if a < 10 { 48 + a } else { 87 + a }));
    assert((digit_char(b) as int) == (if b < 10 { 48 + b } else { 87 + b }));
}

/// Different numbers are written differently in a base from two to sixteen.
pub proof fn lemma_digits_injective(n: nat, m: nat, base: nat)
    requires
        2 <= base <= 16,
        digits(n, base) == digits(m, base),
    ensures
        n == m,
    decreases n,
{
    lemma_digits_len(n, base);
    lemma_digits_len(m, base);
    if n < base && m < base {
        assert(digits(n, base)[0] == digit_char(n % 16));
        assert(digits(m, base)[0] == digit_char(m % 16));
        lemma_digit_char_injective(n % 16, m % 16);
    } else if n >= base && m >= base {
        let dn = digits(n, base);
        let dm = digits(m, base);
        lemma_div_shrinks(n, base);
        lemma_div_shrinks(m, base);
        assert(dn.last() == digit_char(n % base));
        assert(dm.last() == digit_char(m % base));
        lemma_digit_char_injective(n % base, m % base);
        assert(dn.drop_last() =~= digits(n / base, base));
        assert(dm.drop_last() =~= digits(m / base, base));
        lemma_digits_injective(n / base, m / base, base);
        assert(n == base * (n / base) + n % base) by (nonlinear_arith)
            requires
                base >= 2,
        ;
        assert(m == base * (m / base) + m % base) by (nonlinear_arith)
            requires
                base >= 2,
        ;
    } else {
        assert(digits(n, base).len() != digits(m, base).len());
    }
}

/// Text around two pieces being the same, the pieces are the same.
pub proof fn lemma_strip_affixes(p: Seq<char>, s: Seq<char>, t: Seq<char>, q: Seq<char>)
    requires
        p + s + q == p + t + q,
    ensures
        s == t,
{
    assert((p + s + q).len() == p.len() + s.len() + q.len());
    assert((p + t + q).len() == p.len() + t.len() + q.len());
    assert((p + s + q).subrange(p.len() as int, (p.len() + s.len()) as int) =~= s);
    assert((p + t + q).subrange(p.len() as int, (p.len() + t.len()) as int) =~= t);
}

} // verus!
