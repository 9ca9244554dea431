//! Block quotes: nested `<figure><blockquote>` pairs with captions.
use vstd::prelude::*;

use crate::html::{closing, element, opening};
use crate::lists::{close_tag, count_exec, count_of, ladder, open_tag, push_element, push_ladder, push_repeat, repeat};
use crate::spans::{inline_vec, text_html};
use crate::text::{is_space, push_all, slice, trim, trimmed, views};

verus! {

/// A line that a block quote takes in: it starts with `>` or `-`.
pub open spec fn is_quote_line(s: Seq<char>) -> bool {
    s.len() > 0 && (s[0] == '>' || s[0] == '-')
}

/// First index at or after `j` that a block quote does not take in.
pub open spec fn quote_end(lines: Seq<Seq<char>>, j: int) -> int
    decreases lines.len() - j,
{
    if j < 0 || j >= lines.len() || !is_quote_line(lines[j]) {
        j
    } else {
        quote_end(lines, j + 1)
    }
}

pub proof fn lemma_quote_end(lines: Seq<Seq<char>>, j: int)
    requires
        0 <= j,
    ensures
        j <= quote_end(lines, j),
        j <= lines.len() ==> quote_end(lines, j) <= lines.len(),
    decreases lines.len() - j,
{
    if j < lines.len() && is_quote_line(lines[j]) {
        lemma_quote_end(lines, j + 1);
    }
}

pub open spec fn is_quote_mark(c: char) -> bool {
    c == '>' || c == '-' || is_space(c)
}

/// Length of the run of `>`, `-` and whitespace that starts a quote line.
pub open spec fn quote_marks(s: Seq<char>) -> nat
    decreases s.len(),
{
    if s.len() > 0 && is_quote_mark(s[0]) {
        1 + quote_marks(s.drop_first())
    } else {
        0
    }
}

/// The depth of a quote line: the `>` before its text.
pub open spec fn quote_depth(s: Seq<char>) -> nat {
    count_of(s.subrange(0, quote_marks(s) as int), '>')
}

/// A caption line: its marks, trimmed, end in `-`.
pub open spec fn is_caption(s: Seq<char>) -> bool {
    let t = trim(s.subrange(0, quote_marks(s) as int));
    t.len() > 0 && t.last() == '-'
}

/// The text of a quote line after its marks.
pub open spec fn quote_text(s: Seq<char>) -> Seq<char> {
    s.subrange(quote_marks(s) as int, s.len() as int)
}

/// What opens one level: `<figure><blockquote>`.
pub open spec fn level_open() -> Seq<char> {
    opening("figure"@, Seq::empty()) + opening("blockquote"@, Seq::empty())
}

/// What closes one level: `</blockquote></figure>`.
pub open spec fn level_close() -> Seq<char> {
    closing("blockquote"@) + closing("figure"@)
}

/// The quote lines `j..end`, with `cur` levels open. A caption closes the
/// innermost level around its `<figcaption>`; any other line moves the
/// ladder to its depth and adds its text and a line break.
pub open spec fn quote_items(lines: Seq<Seq<char>>, j: int, end: int, cur: nat) -> Seq<char>
    decreases end - j,
{
    if j < 0 || j >= end {
        repeat(level_close(), cur)
    } else {
        let s = lines[j];
        let caption = element("figcaption"@, Seq::empty(), text_html(quote_text(s)));
        if is_caption(s) {
            if cur > 0 {
                closing("blockquote"@) + caption + closing("figure"@) + quote_items(
                    lines,
                    j + 1,
                    end,
                    (cur - 1) as nat,
                )
            } else {
                caption + quote_items(lines, j + 1, end, 0)
            }
        } else {
            let q = quote_depth(s);
            ladder(cur, q, level_open(), level_close()) + text_html(quote_text(s)) + opening(
                "br"@,
                Seq::empty(),
            ) + quote_items(lines, j + 1, end, q)
        }
    }
}

/// A block quote starting at line `i`: its HTML and the first line after it.
pub open spec fn quote_html(lines: Seq<Seq<char>>, i: int) -> (Seq<char>, int) {
    let end = quote_end(lines, i + 1);
    (quote_items(lines, i, end, 0), end)
}

fn quote_marks_exec(s: &Vec<char>) -> (r: usize)
    ensures
        r == quote_marks(s@),
        r <= s.len(),
{
    let mut i: usize = 0;
    assert(s@.subrange(0, s.len() as int) =~= s@);
    while i < s.len() && (s[i] == '>' || s[i] == '-' || crate::text::space(s[i]))
        invariant
            i <= s.len(),
            quote_marks(s@) == i + quote_marks(s@.subrange(i as int, s.len() as int)),
        decreases s.len() - i,
    {
        let ghost t = s@.subrange(i as int, s.len() as int);
        assert(t.drop_first() =~= s@.subrange(i + 1, s.len() as int));
        assert(t[0] == s@[i as int]);
        i = i + 1;
    }
    proof {
        let t = s@.subrange(i as int, s.len() as int);
        if i < s.len() {
            assert(t[0] == s@[i as int]);
        }
    }
    i
}

pub fn parse_blockqoute_internal(lines: &Vec<Vec<char>>, i: usize) -> (r: (Vec<char>, usize))
    requires
        i < lines.len(),
    ensures
        r.0@ == quote_html(views(lines@), i as int).0,
        r.1 == quote_html(views(lines@), i as int).1,
        i < r.1 <= lines.len(),
{
    let ghost ls = views(lines@);
    proof {
        lemma_quote_end(ls, i + 1);
    }
    let mut end: usize = i + 1;
    while end < lines.len() && lines[end].len() > 0 && (lines[end][0] == '>' || lines[end][0]
        == '-')
        invariant
            i < end <= lines.len(),
            ls == views(lines@),
            quote_end(ls, end as int) == quote_end(ls, i + 1),
        decreases lines.len() - end,
    {
        assert(ls[end as int] == lines@[end as int]@);
        end = end + 1;
    }
    proof {
        if end < lines.len() {
            assert(ls[end as int] == lines@[end as int]@);
        }
    }
    let mut open = open_tag("figure");
    let b = open_tag("blockquote");
    push_all(&mut open, &b);
    let mut close = close_tag("blockquote");
    let f = close_tag("figure");
    push_all(&mut close, &f);
    let mut out: Vec<char> = Vec::new();
    let mut cur: usize = 0;
    let mut j: usize = i;
    assert(out@ + quote_items(ls, i as int, end as int, 0) =~= quote_items(
        ls,
        i as int,
        end as int,
        0,
    ));
    while j < end
        invariant
            i <= j <= end <= lines.len(),
            ls == views(lines@),
            open@ == level_open(),
            close@ == level_close(),
            out@ + quote_items(ls, j as int, end as int, cur as nat) == quote_items(
                ls,
                i as int,
                end as int,
                0,
            ),
        decreases end - j,
    {
        let line = &lines[j];
        assert(ls[j as int] == line@);
        let marks = quote_marks_exec(line);
        let head = slice(line, 0, marks);
        let head_trim = trimmed(&head);
        let text = slice(line, marks, line.len());
        let body = inline_vec(&text);
        let ghost o = out@;
        if head_trim.len() > 0 && head_trim[head_trim.len() - 1] == '-' {
            let mut caption: Vec<char> = Vec::new();
            push_element(&mut caption, "figcaption", &body);
            assert(caption@ =~= element("figcaption"@, Seq::empty(), text_html(quote_text(line@))));
            if cur > 0 {
                let c = close_tag("blockquote");
                push_all(&mut out, &c);
                push_all(&mut out, &caption);
                let c2 = close_tag("figure");
                push_all(&mut out, &c2);
                let ghost rest = quote_items(ls, j + 1, end as int, (cur - 1) as nat);
                assert(o + (closing("blockquote"@) + caption@ + closing("figure"@) + rest) =~= out@
                    + rest);
                cur = cur - 1;
            } else {
                push_all(&mut out, &caption);
                let ghost rest = quote_items(ls, j + 1, end as int, 0);
                assert(o + (caption@ + rest) =~= out@ + rest);
            }
        } else {
            let q = count_exec(line, '>', marks);
            push_ladder(&mut out, cur, q, &open, &close);
            push_all(&mut out, &body);
            let br = open_tag("br");
            push_all(&mut out, &br);
            let ghost rest = quote_items(ls, j + 1, end as int, q as nat);
            assert(o + (ladder(cur as nat, q as nat, level_open(), level_close()) + body@ + opening(
                "br"@,
                Seq::empty(),
            ) + rest) =~= out@ + rest);
            cur = q;
        }
        j = j + 1;
    }
    let ghost o = out@;
    push_repeat(&mut out, &close, cur);
    assert(o + quote_items(ls, j as int, end as int, cur as nat) == out@);
    (out, end)
}

} // verus!
