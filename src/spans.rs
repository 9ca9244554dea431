//! The inline markup parser: emphasis `//`, bold `!!`, underline `__`, code
//! spans `<>…</>`, links `<#href text>` and images `<!src alt>` within one
//! line.
use vstd::prelude::*;

use crate::escape::{PH_BACKSLASH, PH_BANGS, PH_CODE_END, PH_GT, PH_LT, PH_QUOTE, PH_SLASHES, PH_UNDERSCORES};
use crate::html::{closing, element, opening};
use crate::text::{find_char, find_from, lemma_find_from, pos, push_all, push_str, slice};

verus! {

/// `a b` opens an inline construct.
pub open spec fn is_opener(a: char, b: char) -> bool {
    ||| (a == '/' && b == '/')
    ||| (a == '!' && b == '!')
    ||| (a == '_' && b == '_')
    ||| (a == '<' && (b == '>' || b == '#' || b == '!'))
}

/// The doubled markers of emphasis, bold and underline.
pub open spec fn is_doubled(a: char) -> bool {
    a == '/' || a == '!' || a == '_'
}

/// The placeholder that protects an escaped closing marker.
pub open spec fn marker_placeholder(a: char) -> char {
    if a == '/' {
        PH_SLASHES
    } else if a == '!' {
        PH_BANGS
    } else {
        PH_UNDERSCORES
    }
}

/// The element that a doubled marker produces.
pub open spec fn marker_tag(a: char) -> Seq<char> {
    if a == '/' {
        "em"@
    } else if a == '!' {
        "strong"@
    } else {
        "u"@
    }
}

/// Scans for the closing `aa` of an emphasis-like span from position `p`.
/// A `\aa` is an escaped closer: it becomes the marker's placeholder and the
/// scan goes on after it. Returns the text before the closer, with escaped
/// closers protected, and the position just after the closer, if any.
pub open spec fn markup_scan(s: Seq<char>, a: char, p: int) -> (Seq<char>, Option<int>)
    decreases s.len() - p,
{
    if p < 0 || p + 1 >= s.len() {
        (if 0 <= p < s.len() { s.subrange(p, s.len() as int) } else { Seq::empty() }, None)
    } else if s[p] == '\\' && s[p + 1] == a && p + 2 < s.len() && s[p + 2] == a {
        let r = markup_scan(s, a, p + 3);
        (seq![marker_placeholder(a)] + r.0, r.1)
    } else if s[p] == a && s[p + 1] == a {
        (Seq::empty(), Some(p + 2))
    } else {
        let r = markup_scan(s, a, p + 1);
        (seq![s[p]] + r.0, r.1)
    }
}

/// `n` backslashes.
pub open spec fn backslashes(n: nat) -> Seq<char> {
    Seq::new(n, |i: int| '\\')
}

/// Scans a code span's body for its terminator `</>` from position `p`, where
/// `run` backslashes just before `p` are still to be written. Of the
/// backslashes before a `</>`, at most the last three count: one or three
/// mark the terminator as escaped text, two stand for one escaped backslash.
pub open spec fn code_scan(s: Seq<char>, p: int, run: nat) -> (Seq<char>, Option<int>)
    decreases s.len() - p,
{
    if p < 0 || p >= s.len() {
        (backslashes(run), None)
    } else if p + 3 <= s.len() && s[p] == '<' && s[p + 1] == '/' && s[p + 2] == '>' {
        let c: nat = if run < 3 { run } else { 3 };
        let lit = backslashes((run - c) as nat);
        if c == 0 {
            (lit, Some(p + 3))
        } else if c == 1 {
            let r = code_scan(s, p + 3, 0);
            (lit + seq![PH_CODE_END] + r.0, r.1)
        } else if c == 2 {
            (lit + seq![PH_BACKSLASH], Some(p + 3))
        } else {
            let r = code_scan(s, p + 3, 0);
            (lit + seq![PH_BACKSLASH, PH_CODE_END] + r.0, r.1)
        }
    } else if s[p] == '\\' {
        code_scan(s, p + 1, run + 1)
    } else {
        let r = code_scan(s, p + 1, 0);
        (backslashes(run) + seq![s[p]] + r.0, r.1)
    }
}

pub open spec fn link_open(dest: Seq<char>) -> Seq<char> {
    seq![PH_LT] + "a href="@ + seq![PH_QUOTE] + dest + seq![PH_QUOTE, PH_GT]
}

pub open spec fn link_close() -> Seq<char> {
    seq![PH_LT] + "/a"@ + seq![PH_GT]
}

pub open spec fn image_tag(src: Seq<char>, alt: Option<Seq<char>>) -> Seq<char> {
    seq![PH_LT] + "img src="@ + seq![PH_QUOTE] + src + seq![PH_QUOTE] + match alt {
        Some(t) => " alt="@ + seq![PH_QUOTE] + t + seq![PH_QUOTE, PH_GT],
        None => seq![PH_GT],
    }
}

pub proof fn lemma_markup_scan(s: Seq<char>, a: char, p: int)
    requires
        0 <= p <= s.len(),
    ensures
        markup_scan(s, a, p).0.len() <= s.len() - p,
        markup_scan(s, a, p).1 matches Some(k) ==> p + 2 <= k <= s.len(),
    decreases s.len() - p,
{
    if p + 1 >= s.len() {
    } else if s[p] == '\\' && s[p + 1] == a && p + 2 < s.len() && s[p + 2] == a {
        lemma_markup_scan(s, a, p + 3);
    } else if s[p] == a && s[p + 1] == a {
    } else {
        lemma_markup_scan(s, a, p + 1);
    }
}

pub proof fn lemma_code_scan(s: Seq<char>, p: int, run: nat)
    requires
        0 <= p <= s.len(),
    ensures
        code_scan(s, p, run).0.len() <= s.len() - p + run,
        code_scan(s, p, run).1 matches Some(k) ==> p + 3 <= k <= s.len(),
    decreases s.len() - p,
{
    if p >= s.len() {
    } else if p + 3 <= s.len() && s[p] == '<' && s[p + 1] == '/' && s[p + 2] == '>' {
        if run >= 1 {
            lemma_code_scan(s, p + 3, 0);
        }
    } else if s[p] == '\\' {
        lemma_code_scan(s, p + 1, run + 1);
    } else {
        lemma_code_scan(s, p + 1, 0);
    }
}

/// The inline markup of one line, in intermediate form. The earliest opener
/// wins; text before it is copied; a construct without its closing part is
/// written as the literal opener and scanning goes on after it.
pub open spec fn text_html(s: Seq<char>) -> Seq<char>
    decreases s.len(),
{
    if s.len() < 2 {
        s
    } else {
        let a = s[0];
        let b = s[1];
        let rest = s.subrange(2, s.len() as int);
        if is_opener(a, b) && is_doubled(a) {
            let r = markup_scan(rest, a, 0);
            proof {
                lemma_markup_scan(rest, a, 0);
            }
            match r.1 {
                Some(k) => element(marker_tag(a), Seq::empty(), text_html(r.0)) + text_html(
                    rest.subrange(k, rest.len() as int),
                ),
                None => seq![a, a] + text_html(r.0),
            }
        } else if a == '<' && b == '>' {
            let r = code_scan(rest, 0, 0);
            proof {
                lemma_code_scan(rest, 0, 0);
            }
            match r.1 {
                Some(k) => element("code"@, Seq::empty(), r.0) + text_html(
                    rest.subrange(k, rest.len() as int),
                ),
                None => seq!['<', '>'] + text_html(r.0),
            }
        } else if a == '<' && (b == '#' || b == '!') {
            proof {
                lemma_find_from(rest, '>', 0);
            }
            match find_from(rest, '>', 0) {
                None => seq!['<', b] + text_html(rest),
                Some(e) => {
                    let contents = rest.subrange(0, e);
                    let after = rest.subrange(e + 1, rest.len() as int);
                    proof {
                        lemma_find_from(contents, ' ', 0);
                    }
                    let sp = find_from(contents, ' ', 0);
                    let dest = match sp {
                        Some(q) => contents.subrange(0, q),
                        None => contents,
                    };
                    if dest.len() == 0 {
                        seq!['<', b] + text_html(rest)
                    } else if b == '#' {
                        match sp {
                            Some(q) => link_open(dest) + text_html(
                                contents.subrange(q + 1, contents.len() as int),
                            ) + link_close() + text_html(after),
                            None => link_open(dest) + dest + link_close() + text_html(after),
                        }
                    } else {
                        match sp {
                            Some(q) => image_tag(
                                dest,
                                Some(contents.subrange(q + 1, contents.len() as int)),
                            ) + text_html(after),
                            None => image_tag(dest, None) + text_html(after),
                        }
                    }
                },
            }
        } else {
            seq![a] + text_html(s.drop_first())
        }
    }
}

fn placeholder_of(a: char) -> (r: char)
    ensures
        r == marker_placeholder(a),
{
    if a == '/' {
        PH_SLASHES
    } else if a == '!' {
        PH_BANGS
    } else {
        PH_UNDERSCORES
    }
}

fn scan_markup(s: &Vec<char>, a: char) -> (r: (Vec<char>, Option<usize>))
    ensures
        r.0@ == markup_scan(s@, a, 0).0,
        pos(r.1) == markup_scan(s@, a, 0).1,
{
    let ph = placeholder_of(a);
    let mut pre: Vec<char> = Vec::new();
    let mut p: usize = 0;
    assert(pre@ + markup_scan(s@, a, 0).0 =~= markup_scan(s@, a, 0).0);
    loop
        invariant
            p <= s.len(),
            ph == marker_placeholder(a),
            pre@ + markup_scan(s@, a, p as int).0 == markup_scan(s@, a, 0).0,
            markup_scan(s@, a, p as int).1 == markup_scan(s@, a, 0).1,
        decreases s.len() - p,
    {
        if s.len() - p < 2 {
            let tail = slice(s, p, s.len());
            let ghost before = pre@;
            push_all(&mut pre, &tail);
            proof {
                if p == s.len() {
                    assert(tail@ =~= Seq::<char>::empty());
                }
            }
            return (pre, None);
        }
        if s[p] == '\\' && s[p + 1] == a && p + 2 < s.len() && s[p + 2] == a {
            let ghost r = markup_scan(s@, a, p + 3);
            assert(markup_scan(s@, a, p as int) == (seq![ph] + r.0, r.1));
            let ghost old_pre = pre@;
            pre.push(ph);
            assert(old_pre + (seq![ph] + r.0) =~= pre@ + r.0);
            p = p + 3;
        } else if s[p] == a && s[p + 1] == a {
            assert(pre@ + Seq::<char>::empty() =~= pre@);
            return (pre, Some(p + 2));
        } else {
            let ghost r = markup_scan(s@, a, p + 1);
            let c = s[p];
            assert(markup_scan(s@, a, p as int) == (seq![c] + r.0, r.1));
            let ghost old_pre = pre@;
            pre.push(c);
            assert(old_pre + (seq![c] + r.0) =~= pre@ + r.0);
            p = p + 1;
        }
    }
}

fn push_backslashes(out: &mut Vec<char>, n: usize)
    ensures
        final(out)@ == old(out)@ + backslashes(n as nat),
{
    let ghost o = out@;
    let mut i: usize = 0;
    while i < n
        invariant
            i <= n,
            out@ == o + backslashes(i as nat),
        decreases n - i,
    {
        out.push('\\');
        assert(out@ =~= o + backslashes((i + 1) as nat));
        i = i + 1;
    }
}

fn scan_code(s: &Vec<char>) -> (r: (Vec<char>, Option<usize>))
    ensures
        r.0@ == code_scan(s@, 0, 0).0,
        pos(r.1) == code_scan(s@, 0, 0).1,
{
    let mut pre: Vec<char> = Vec::new();
    let mut p: usize = 0;
    let mut run: usize = 0;
    assert(pre@ + code_scan(s@, 0, 0).0 =~= code_scan(s@, 0, 0).0);
    loop
        invariant
            run <= p <= s.len(),
            pre@ + code_scan(s@, p as int, run as nat).0 == code_scan(s@, 0, 0).0,
            code_scan(s@, p as int, run as nat).1 == code_scan(s@, 0, 0).1,
        decreases s.len() - p,
    {
        let ghost o = pre@;
        if p >= s.len() {
            push_backslashes(&mut pre, run);
            return (pre, None);
        }
        if s.len() - p >= 3 && s[p] == '<' && s[p + 1] == '/' && s[p + 2] == '>' {
            let c: usize = if run < 3 { run } else { 3 };
            push_backslashes(&mut pre, run - c);
            if c == 0 {
                return (pre, Some(p + 3));
            } else if c == 1 {
                let ghost r = code_scan(s@, p + 3, 0);
                pre.push(PH_CODE_END);
                assert(o + (backslashes((run - c) as nat) + seq![PH_CODE_END] + r.0) =~= pre@
                    + r.0);
                p = p + 3;
                run = 0;
            } else if c == 2 {
                pre.push(PH_BACKSLASH);
                assert(pre@ =~= o + (backslashes((run - c) as nat) + seq![PH_BACKSLASH]));
                return (pre, Some(p + 3));
            } else {
                let ghost r = code_scan(s@, p + 3, 0);
                pre.push(PH_BACKSLASH);
                pre.push(PH_CODE_END);
                assert(o + (backslashes((run - c) as nat) + seq![PH_BACKSLASH, PH_CODE_END]
                    + r.0) =~= pre@ + r.0);
                p = p + 3;
                run = 0;
            }
        } else if s[p] == '\\' {
            p = p + 1;
            run = run + 1;
        } else {
            let ghost r = code_scan(s@, p + 1, 0);
            push_backslashes(&mut pre, run);
            pre.push(s[p]);
            assert(o + (backslashes(run as nat) + seq![s@[p as int]] + r.0) =~= pre@ + r.0);
            p = p + 1;
            run = 0;
        }
    }
}

/// Appends `<tag>`.
fn push_open(out: &mut Vec<char>, tag: &str)
    ensures
        final(out)@ == old(out)@ + opening(tag@, Seq::empty()),
{
    let ghost o = out@;
    out.push(PH_LT);
    push_str(out, tag);
    out.push(PH_GT);
    assert(out@ =~= o + opening(tag@, Seq::empty()));
}

/// Appends `</tag>`.
fn push_close(out: &mut Vec<char>, tag: &str)
    ensures
        final(out)@ == old(out)@ + closing(tag@),
{
    let ghost o = out@;
    out.push(PH_LT);
    out.push('/');
    push_str(out, tag);
    out.push(PH_GT);
    assert(out@ =~= o + closing(tag@));
}

fn push_link_open(out: &mut Vec<char>, dest: &Vec<char>)
    ensures
        final(out)@ == old(out)@ + link_open(dest@),
{
    let ghost o = out@;
    out.push(PH_LT);
    push_str(out, "a href=");
    out.push(PH_QUOTE);
    push_all(out, dest);
    out.push(PH_QUOTE);
    out.push(PH_GT);
    assert(out@ =~= o + link_open(dest@));
}

fn push_link_close(out: &mut Vec<char>)
    ensures
        final(out)@ == old(out)@ + link_close(),
{
    let ghost o = out@;
    out.push(PH_LT);
    push_str(out, "/a");
    out.push(PH_GT);
    assert(out@ =~= o + link_close());
}

fn push_image(out: &mut Vec<char>, src: &Vec<char>, alt: Option<&Vec<char>>)
    ensures
        final(out)@ == old(out)@ + image_tag(
            src@,
            match alt {
                Some(t) => Some(t@),
                None => None,
            },
        ),
{
    let ghost o = out@;
    out.push(PH_LT);
    push_str(out, "img src=");
    out.push(PH_QUOTE);
    push_all(out, src);
    out.push(PH_QUOTE);
    let ghost mid = out@;
    match alt {
        Some(t) => {
            push_str(out, " alt=");
            out.push(PH_QUOTE);
            push_all(out, t);
            out.push(PH_QUOTE);
            out.push(PH_GT);
            assert(out@ =~= o + image_tag(src@, Some(t@)));
        },
        None => {
            out.push(PH_GT);
            assert(out@ =~= o + image_tag(src@, None));
        },
    }
}

/// An emphasis, bold or underline span opened by `aa`, followed by the rest
/// of the line.
fn parse_markup(a: char, rest: &Vec<char>) -> (r: Vec<char>)
    requires
        is_doubled(a),
    ensures
        r@ == text_html(seq![a, a] + rest@),
    decreases rest@.len() + 2, 0int,
{
    let ghost s = seq![a, a] + rest@;
    assert(s.subrange(2, s.len() as int) =~= rest@);
    assert(s[0] == a && s[1] == a);
    let mut out: Vec<char> = Vec::new();
    let (pre, close) = scan_markup(rest, a);
    proof {
        lemma_markup_scan(rest@, a, 0);
    }
    match close {
        Some(k) => {
            let tag = if a == '/' {
                "em"
            } else if a == '!' {
                "strong"
            } else {
                "u"
            };
            push_open(&mut out, tag);
            let inner = inline_vec(&pre);
            push_all(&mut out, &inner);
            push_close(&mut out, tag);
            let tail = slice(rest, k, rest.len());
            let after = inline_vec(&tail);
            push_all(&mut out, &after);
            assert(out@ =~= element(marker_tag(a), Seq::empty(), text_html(pre@)) + text_html(
                rest@.subrange(k as int, rest@.len() as int),
            ));
        },
        None => {
            out.push(a);
            out.push(a);
            let after = inline_vec(&pre);
            push_all(&mut out, &after);
            assert(out@ =~= seq![a, a] + text_html(pre@));
        },
    }
    out
}

/// A code span opened by `<>`, followed by the rest of the line.
fn parse_code(rest: &Vec<char>) -> (r: Vec<char>)
    ensures
        r@ == text_html(seq!['<', '>'] + rest@),
    decreases rest@.len() + 2, 0int,
{
    let ghost s = seq!['<', '>'] + rest@;
    assert(s.subrange(2, s.len() as int) =~= rest@);
    assert(s[0] == '<' && s[1] == '>');
    let mut out: Vec<char> = Vec::new();
    let (pre, close) = scan_code(rest);
    proof {
        lemma_code_scan(rest@, 0, 0);
    }
    match close {
        Some(k) => {
            push_open(&mut out, "code");
            push_all(&mut out, &pre);
            push_close(&mut out, "code");
            let tail = slice(rest, k, rest.len());
            let after = inline_vec(&tail);
            push_all(&mut out, &after);
            assert(out@ =~= element("code"@, Seq::empty(), pre@) + text_html(
                rest@.subrange(k as int, rest@.len() as int),
            ));
        },
        None => {
            out.push('<');
            out.push('>');
            let after = inline_vec(&pre);
            push_all(&mut out, &after);
            assert(out@ =~= seq!['<', '>'] + text_html(pre@));
        },
    }
    out
}

/// The construct that the opener `a b` starts, followed by the rest of the
/// line; links and images are handled here.
fn construct(a: char, b: char, rest: &Vec<char>) -> (r: Vec<char>)
    requires
        is_opener(a, b),
    ensures
        r@ == text_html(seq![a, b] + rest@),
    decreases rest@.len() + 2, 1int,
{
    let ghost s = seq![a, b] + rest@;
    assert(s.subrange(2, s.len() as int) =~= rest@);
    assert(s[0] == a && s[1] == b);
    let mut out: Vec<char> = Vec::new();
    if a == '/' || a == '!' || a == '_' {
        return parse_markup(a, rest);
    } else if b == '>' {
        return parse_code(rest);
    } else {
        proof {
            lemma_find_from(rest@, '>', 0);
        }
        match find_char(rest, '>') {
            None => {
                out.push('<');
                out.push(b);
                let after = inline_vec(rest);
                push_all(&mut out, &after);
                assert(out@ =~= seq!['<', b] + text_html(rest@));
            },
            Some(e) => {
                let contents = slice(rest, 0, e);
                let tail = slice(rest, e + 1, rest.len());
                proof {
                    lemma_find_from(contents@, ' ', 0);
                }
                let sp = find_char(&contents, ' ');
                let dest = match sp {
                    Some(q) => slice(&contents, 0, q),
                    None => slice(&contents, 0, contents.len()),
                };
                assert(contents@.subrange(0, contents@.len() as int) =~= contents@);
                if dest.len() == 0 {
                    out.push('<');
                    out.push(b);
                    let after = inline_vec(rest);
                    push_all(&mut out, &after);
                    assert(out@ =~= seq!['<', b] + text_html(rest@));
                } else if b == '#' {
                    push_link_open(&mut out, &dest);
                    match sp {
                        Some(q) => {
                            let text = slice(&contents, q + 1, contents.len());
                            let shown = inline_vec(&text);
                            push_all(&mut out, &shown);
                        },
                        None => {
                            push_all(&mut out, &dest);
                        },
                    }
                    push_link_close(&mut out);
                    let after = inline_vec(&tail);
                    push_all(&mut out, &after);
                } else {
                    match sp {
                        Some(q) => {
                            let alt = slice(&contents, q + 1, contents.len());
                            push_image(&mut out, &dest, Some(&alt));
                        },
                        None => {
                            push_image(&mut out, &dest, None);
                        },
                    }
                    let after = inline_vec(&tail);
                    push_all(&mut out, &after);
                }
            },
        }
    }
    out
}

/// The inline markup of `s`, in intermediate form.
pub fn inline_vec(s: &Vec<char>) -> (r: Vec<char>)
    ensures
        r@ == text_html(s@),
    decreases s@.len(), 2int,
{
    let mut out: Vec<char> = Vec::new();
    let mut i: usize = 0;
    assert(s@.subrange(0, s.len() as int) =~= s@);
    loop
        invariant
            i <= s.len(),
            out@ + text_html(s@.subrange(i as int, s.len() as int)) == text_html(s@),
        decreases s.len() - i,
    {
        let ghost t = s@.subrange(i as int, s.len() as int);
        if s.len() - i < 2 {
            let tail = slice(s, i, s.len());
            push_all(&mut out, &tail);
            return out;
        }
        let a = s[i];
        let b = s[i + 1];
        if (a == '/' && b == '/') || (a == '!' && b == '!') || (a == '_' && b == '_') || (a == '<'
            && (b == '>' || b == '#' || b == '!')) {
            let rest = slice(s, i + 2, s.len());
            assert(t =~= seq![a, b] + rest@);
            let piece = construct(a, b, &rest);
            push_all(&mut out, &piece);
            return out;
        }
        assert(t.drop_first() =~= s@.subrange(i + 1, s.len() as int));
        assert(t[0] == a && t[1] == b);
        assert(out@ + (seq![a] + text_html(t.drop_first())) =~= (out@ + seq![a]) + text_html(
            t.drop_first(),
        ));
        out.push(a);
        i = i + 1;
    }
}

} // verus!
