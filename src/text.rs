//! Character-level helpers shared by every engine: conversion between
//! strings and character vectors, Unicode whitespace and trimming.
use vstd::prelude::*;

verus! {

/// Relies on `str::chars` collected into a `Vec`: the characters of the
/// string, in order.
#[verifier::external_body]
pub(crate) fn chars_of(s: &str) -> (r: Vec<char>)
    ensures
        r@ == s@,
{
    s.chars().collect()
}

/// Relies on `String`'s `FromIterator<char>`: the string made of the given
/// characters, in order.
#[verifier::external_body]
pub(crate) fn string_of(v: &Vec<char>) -> (r: String)
    ensures
        r@ == v@,
{
    v.iter().collect()
}

/// The characters with the Unicode `White_Space` property, which is what
/// `char::is_whitespace` tests.
pub open spec fn is_space(c: char) -> bool {
    ||| c == ' '
    ||| ('\t' <= c && c <= '\r')
    ||| c == '\u{85}'
    ||| c == '\u{a0}'
    ||| c == '\u{1680}'
    ||| ('\u{2000}' <= c && c <= '\u{200a}')
    ||| c == '\u{2028}'
    ||| c == '\u{2029}'
    ||| c == '\u{202f}'
    ||| c == '\u{205f}'
    ||| c == '\u{3000}'
}

pub fn space(c: char) -> (r: bool)
    ensures
        r == is_space(c),
{
    c == ' ' || ('\t' <= c && c <= '\r') || c == '\u{85}' || c == '\u{a0}' || c == '\u{1680}'
        || ('\u{2000}' <= c && c <= '\u{200a}') || c == '\u{2028}' || c == '\u{2029}' || c
        == '\u{202f}' || c == '\u{205f}' || c == '\u{3000}'
}

/// Number of whitespace characters at the start of `s`.
pub open spec fn lead_ws(s: Seq<char>) -> nat
    decreases s.len(),
{
    if s.len() > 0 && is_space(s[0]) {
        1 + lead_ws(s.drop_first())
    } else {
        0
    }
}

/// Number of whitespace characters at the end of `s`.
pub open spec fn trail_ws(s: Seq<char>) -> nat
    decreases s.len(),
{
    if s.len() > 0 && is_space(s.last()) {
        1 + trail_ws(s.drop_last())
    } else {
        0
    }
}

/// `s` without whitespace at either end.
pub open spec fn trim(s: Seq<char>) -> Seq<char> {
    let a = lead_ws(s);
    if a == s.len() {
        Seq::empty()
    } else {
        s.subrange(a as int, s.len() - trail_ws(s))
    }
}

pub proof fn lemma_lead_ws(s: Seq<char>)
    ensures
        lead_ws(s) <= s.len(),
        forall|i: int| 0 <= i < lead_ws(s) ==> is_space(#[trigger] s[i]),
        lead_ws(s) < s.len() ==> !is_space(s[lead_ws(s) as int]),
    decreases s.len(),
{
    if s.len() > 0 && is_space(s[0]) {
        lemma_lead_ws(s.drop_first());
        assert forall|i: int| 0 <= i < lead_ws(s) implies is_space(#[trigger] s[i]) by {
            if i > 0 {
                assert(s[i] == s.drop_first()[i - 1]);
            }
        }
    }
}

pub proof fn lemma_trail_ws(s: Seq<char>)
    ensures
        trail_ws(s) <= s.len(),
        forall|i: int| s.len() - trail_ws(s) <= i < s.len() ==> is_space(#[trigger] s[i]),
        trail_ws(s) < s.len() ==> !is_space(s[s.len() - trail_ws(s) - 1]),
    decreases s.len(),
{
    if s.len() > 0 && is_space(s.last()) {
        lemma_trail_ws(s.drop_last());
        assert forall|i: int| s.len() - trail_ws(s) <= i < s.len() implies is_space(
            #[trigger] s[i],
        ) by {
            if i < s.len() - 1 {
                assert(s[i] == s.drop_last()[i]);
            }
        }
    }
}

/// Position of the first non-whitespace character (or `s.len()`).
fn lead_end(s: &Vec<char>) -> (r: usize)
    ensures
        r == lead_ws(s@),
{
    let mut i: usize = 0;
    proof {
        assert(s@.subrange(0, s.len() as int) =~= s@);
    }
    while i < s.len() && space(s[i])
        invariant
            i <= s.len(),
            lead_ws(s@) == i + lead_ws(s@.subrange(i as int, s.len() as int)),
        decreases s.len() - i,
    {
        let ghost t = s@.subrange(i as int, s.len() as int);
        assert(t.drop_first() =~= s@.subrange(i + 1, s.len() as int));
        assert(t[0] == s@[i as int]);
        i = i + 1;
    }
    proof {
        let t = s@.subrange(i as int, s.len() as int);
        if i < s.len() {
            assert(t[0] == s@[i as int]);
        }
    }
    i
}

/// Position just past the last non-whitespace character (0 where there is none).
fn trail_start(s: &Vec<char>) -> (r: usize)
    ensures
        r == s.len() - trail_ws(s@),
{
    let mut j: usize = s.len();
    proof {
        assert(s@.subrange(0, s.len() as int) =~= s@);
    }
    while j > 0 && space(s[j - 1])
        invariant
            j <= s.len(),
            trail_ws(s@) == (s.len() - j) + trail_ws(s@.subrange(0, j as int)),
        decreases j,
    {
        let ghost t = s@.subrange(0, j as int);
        assert(t.drop_last() =~= s@.subrange(0, j - 1));
        assert(t.last() == s@[j - 1]);
        j = j - 1;
    }
    proof {
        let t = s@.subrange(0, j as int);
        if j > 0 {
            assert(t.last() == s@[j - 1]);
        }
    }
    j
}

/// Copy of `s[lo..hi]`.
pub fn slice(s: &Vec<char>, lo: usize, hi: usize) -> (r: Vec<char>)
    requires
        lo <= hi <= s.len(),
    ensures
        r@ == s@.subrange(lo as int, hi as int),
{
    let mut r: Vec<char> = Vec::new();
    let mut i: usize = lo;
    while i < hi
        invariant
            lo <= i <= hi <= s.len(),
            r@ == s@.subrange(lo as int, i as int),
        decreases hi - i,
    {
        r.push(s[i]);
        assert(r@ =~= s@.subrange(lo as int, i + 1));
        i = i + 1;
    }
    r
}

pub fn trimmed(s: &Vec<char>) -> (r: Vec<char>)
    ensures
        r@ == trim(s@),
{
    let a = lead_end(s);
    if a == s.len() {
        return Vec::new();
    }
    let b = trail_start(s);
    proof {
        lemma_lead_ws(s@);
        lemma_trail_ws(s@);
        // the first non-space character lies before the trailing run
        if b <= a {
            assert(is_space(s@[a as int]));
        }
    }
    slice(s, a, b)
}

/// Appends the characters of `lit` to `out`.
pub fn push_str(out: &mut Vec<char>, lit: &str)
    ensures
        final(out)@ == old(out)@ + lit@,
{
    let mut v = chars_of(lit);
    out.append(&mut v);
}

/// Appends a copy of `v` to `out`.
pub fn push_all(out: &mut Vec<char>, v: &Vec<char>)
    ensures
        final(out)@ == old(out)@ + v@,
{
    let mut i: usize = 0;
    let ghost o = out@;
    while i < v.len()
        invariant
            i <= v.len(),
            out@ == o + v@.subrange(0, i as int),
        decreases v.len() - i,
    {
        out.push(v[i]);
        assert(out@ =~= o + v@.subrange(0, i + 1));
        i = i + 1;
    }
    assert(v@.subrange(0, v.len() as int) =~= v@);
}

/// An exec position as a spec position.
pub open spec fn pos(o: Option<usize>) -> Option<int> {
    match o {
        Some(k) => Some(k as int),
        None => None,
    }
}

/// First position at or after `p` that holds `c`.
pub open spec fn find_from(s: Seq<char>, c: char, p: int) -> Option<int>
    decreases s.len() - p,
{
    if p < 0 || p >= s.len() {
        None
    } else if s[p] == c {
        Some(p)
    } else {
        find_from(s, c, p + 1)
    }
}

pub proof fn lemma_find_from(s: Seq<char>, c: char, p: int)
    requires
        0 <= p,
    ensures
        find_from(s, c, p) matches Some(k) ==> p <= k < s.len() && s[k] == c,
        find_from(s, c, p) is None ==> forall|i: int| p <= i < s.len() ==> s[i] != c,
        find_from(s, c, p) matches Some(k) ==> forall|i: int| p <= i < k ==> s[i] != c,
    decreases s.len() - p,
{
    if p < s.len() && s[p] != c {
        lemma_find_from(s, c, p + 1);
    }
}

/// First position at or after `from` that holds `c`.
pub fn find_char_from(s: &Vec<char>, c: char, from: usize) -> (r: Option<usize>)
    ensures
        pos(r) == find_from(s@, c, from as int),
{
    let mut p: usize = from;
    if p > s.len() {
        return None;
    }
    while p < s.len()
        invariant
            from <= p <= s.len(),
            find_from(s@, c, p as int) == find_from(s@, c, from as int),
        decreases s.len() - p,
    {
        if s[p] == c {
            return Some(p);
        }
        p = p + 1;
    }
    None
}

pub fn find_char(s: &Vec<char>, c: char) -> (r: Option<usize>)
    ensures
        pos(r) == find_from(s@, c, 0),
{
    find_char_from(s, c, 0)
}

/// The pieces of `s[p..]` between occurrences of `c` (one more piece than
/// there are separators).
pub open spec fn split_from(s: Seq<char>, c: char, p: int) -> Seq<Seq<char>>
    decreases s.len() - p,
{
    if p < 0 || p > s.len() {
        Seq::empty()
    } else {
        proof {
            lemma_find_from(s, c, p);
        }
        match find_from(s, c, p) {
            None => seq![s.subrange(p, s.len() as int)],
            Some(k) => seq![s.subrange(p, k)] + split_from(s, c, k + 1),
        }
    }
}

/// The contents of a vector of character vectors.
pub open spec fn views(v: Seq<Vec<char>>) -> Seq<Seq<char>> {
    v.map_values(|l: Vec<char>| l@)
}

pub fn split(s: &Vec<char>, c: char) -> (r: Vec<Vec<char>>)
    ensures
        views(r@) == split_from(s@, c, 0),
{
    let mut out: Vec<Vec<char>> = Vec::new();
    let mut p: usize = 0;
    assert(views(out@) + split_from(s@, c, 0) =~= split_from(s@, c, 0));
    loop
        invariant
            p <= s.len(),
            views(out@) + split_from(s@, c, p as int) == split_from(s@, c, 0),
        decreases s.len() - p,
    {
        proof {
            lemma_find_from(s@, c, p as int);
        }
        let ghost o = views(out@);
        match find_char_from(s, c, p) {
            None => {
                let piece = slice(s, p, s.len());
                out.push(piece);
                assert(views(out@) =~= o + seq![piece@]);
                return out;
            },
            Some(k) => {
                let piece = slice(s, p, k);
                out.push(piece);
                let ghost rest = split_from(s@, c, k + 1);
                assert(views(out@) =~= o + seq![piece@]);
                assert(o + (seq![piece@] + rest) =~= views(out@) + rest);
                p = k + 1;
            },
        }
    }
}

} // verus!
