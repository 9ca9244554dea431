//! Properties of the transpiler that hold of all inputs.
use vstd::prelude::*;

use crate::blocks::{
    cells, cells_html, digit, has_separator, is_heading, is_separator, lead_run, table_end,
    table_html, table_rows, title_html, trail_run,
};
use crate::parser::{document, lines_of, render};
use crate::lists::{
    OrderedListMarker, classify, consists, ladder, li_html, repeat, ul_depth, ul_items, ul_text,
};
use crate::spans::is_opener;
use crate::text::{is_space, lead_ws, split_from, trail_ws};
use crate::escape::{emit, finish, lemma_finish_char, lemma_finish_concat, PH_BACKSLASH, PH_CODE_END};
use crate::html::{closing, element, opening};
use crate::spans::{backslashes, code_scan, text_html};
use crate::text::{find_from, lemma_find_from, trim};

verus! {

/// What plain HTML escaping writes for one character.
pub open spec fn escape_char(c: char) -> Seq<char> {
    if c == '&' {
        seq!['&', 'a', 'm', 'p', ';']
    } else if c == '<' {
        seq!['&', 'l', 't', ';']
    } else if c == '>' {
        seq!['&', 'g', 't', ';']
    } else {
        seq![c]
    }
}

/// `s` with `&`, `<` and `>` written as entities.
pub open spec fn escape_html(s: Seq<char>) -> Seq<char>
    decreases s.len(),
{
    if s.len() == 0 {
        Seq::empty()
    } else {
        escape_html(s.drop_last()) + escape_char(s.last())
    }
}

/// One of the private-use characters that stand for generated markup.
pub open spec fn is_placeholder(c: char) -> bool {
    '\u{E001}' <= c && c <= '\u{E008}'
}

/// The author's text: no placeholder characters.
pub open spec fn is_user_text(s: Seq<char>) -> bool {
    forall|i: int| 0 <= i < s.len() ==> !is_placeholder(#[trigger] s[i])
}

/// A tag name that needs no escaping.
pub open spec fn is_tag_name(s: Seq<char>) -> bool {
    forall|i: int|
        0 <= i < s.len() ==> ('a' <= #[trigger] s[i] && s[i] <= 'z') || ('0' <= s[i] && s[i]
            <= '9') || s[i] == '/'
}

/// The final pass turns the author's `&`, `<`, `>` into entities.
pub proof fn law_user_text_escaped(t: Seq<char>)
    requires
        is_user_text(t),
    ensures
        finish(t) == escape_html(t),
    decreases t.len(),
{
    if t.len() > 0 {
        law_user_text_escaped(t.drop_last());
        assert(!is_placeholder(t[t.len() - 1]));
        assert(emit(t.last()) == escape_char(t.last()));
    }
}

proof fn lemma_tag_name(tag: Seq<char>)
    requires
        is_tag_name(tag),
    ensures
        finish(tag) == tag,
    decreases tag.len(),
{
    if tag.len() > 0 {
        lemma_tag_name(tag.drop_last());
        assert(is_tag_name(tag.drop_last()));
        let c = tag.last();
        assert(('a' <= c && c <= 'z') || ('0' <= c && c <= '9') || c == '/');
        assert(emit(c) == seq![c]);
        assert(finish(tag) =~= tag);
    }
}

/// Raw `&`, `<`, `>` in the author's text become `&amp;`, `&lt;`, `&gt;`,
/// while a tag that the transpiler generates around it stays a real tag.
pub proof fn law_entities(tag: Seq<char>, t: Seq<char>)
    requires
        is_tag_name(tag),
        is_user_text(t),
    ensures
        finish(element(tag, Seq::empty(), t)) == seq!['<'] + tag + seq!['>'] + escape_html(t)
            + seq!['<', '/'] + tag + seq!['>'],
{
    let lt = crate::escape::PH_LT;
    let gt = crate::escape::PH_GT;
    lemma_tag_name(tag);
    law_user_text_escaped(t);
    lemma_finish_char(lt);
    lemma_finish_char(gt);
    lemma_finish_char('/');
    let e = element(tag, Seq::empty(), t);
    assert(e =~= seq![lt] + tag + seq![gt] + t + seq![lt] + seq!['/'] + tag + seq![gt]);
    lemma_finish_concat(seq![lt], tag);
    lemma_finish_concat(seq![lt] + tag, seq![gt]);
    lemma_finish_concat(seq![lt] + tag + seq![gt], t);
    lemma_finish_concat(seq![lt] + tag + seq![gt] + t, seq![lt]);
    lemma_finish_concat(seq![lt] + tag + seq![gt] + t + seq![lt], seq!['/']);
    lemma_finish_concat(seq![lt] + tag + seq![gt] + t + seq![lt] + seq!['/'], tag);
    lemma_finish_concat(seq![lt] + tag + seq![gt] + t + seq![lt] + seq!['/'] + tag, seq![gt]);
    assert(seq!['<', '/'] =~= seq!['<'] + seq!['/']);
    assert(finish(e) =~= seq!['<'] + tag + seq!['>'] + escape_html(t) + seq!['<', '/'] + tag
        + seq!['>']);
}

/// A link or image opener without a closing `>` is written as literal text
/// and the rest of the line is parsed as usual.
pub proof fn law_unterminated_link(b: char, rest: Seq<char>)
    requires
        b == '#' || b == '!',
        forall|i: int| 0 <= i < rest.len() ==> rest[i] != '>',
    ensures
        text_html(seq!['<', b] + rest) == seq!['<', b] + text_html(rest),
{
    let s = seq!['<', b] + rest;
    assert(s.subrange(2, s.len() as int) =~= rest);
    lemma_find_from(rest, '>', 0);
    if find_from(rest, '>', 0) is Some {
        let k = find_from(rest, '>', 0)->0;
        assert(rest[k] == '>');
    }
}

/// Every row rendered as a data row.
pub open spec fn data_rows(lines: Seq<Seq<char>>, j: int, end: int) -> Seq<char>
    decreases end - j,
{
    if j < 0 || j >= end {
        Seq::empty()
    } else {
        element("tr"@, Seq::empty(), cells_html(cells(trim(lines[j])), "td"@)) + data_rows(
            lines,
            j + 1,
            end,
        )
    }
}

proof fn lemma_no_separator_rows(lines: Seq<Seq<char>>, j: int, end: int, header: bool)
    requires
        0 <= j,
        !has_separator(lines, j, end),
    ensures
        table_rows(lines, j, end, false, header) == data_rows(lines, j, end),
    decreases end - j,
{
    if j < end {
        lemma_no_separator_rows(lines, j + 1, end, header);
    }
}

/// A table with a separator row renders its first row as header cells; a
/// table without one renders every row as data cells.
pub proof fn law_table_shape(lines: Seq<Seq<char>>, i: int)
    requires
        0 <= i < lines.len(),
    ensures
        ({
            let end = table_end(lines, i + 1);
            let first = cells(trim(lines[i]));
            has_separator(lines, i, end) && !is_separator(first) ==> table_html(lines, i).0
                == opening("table"@, Seq::empty()) + element(
                "tr"@,
                Seq::empty(),
                cells_html(first, "th"@),
            ) + table_rows(lines, i + 1, end, true, true) + closing("table"@)
        }),
        ({
            let end = table_end(lines, i + 1);
            !has_separator(lines, i, end) ==> table_html(lines, i).0 == opening(
                "table"@,
                Seq::empty(),
            ) + data_rows(lines, i, end) + closing("table"@)
        }),
{
    let end = table_end(lines, i + 1);
    crate::blocks::lemma_table_end(lines, i + 1);
    if !has_separator(lines, i, end) {
        lemma_no_separator_rows(lines, i, end, true);
    }
}

/// Levels the ladder opens while it walks from depth `cur` through the
/// depths `ds`, one item at each.
pub open spec fn ladder_opens(cur: nat, ds: Seq<nat>) -> nat
    decreases ds.len(),
{
    if ds.len() == 0 {
        0
    } else {
        (if ds[0] > cur {
            (ds[0] - cur) as nat
        } else {
            0nat
        }) + ladder_opens(ds[0], ds.drop_first())
    }
}

/// Levels the ladder closes on that walk, counting the levels still open at
/// the end, which the construct closes.
pub open spec fn ladder_closes(cur: nat, ds: Seq<nat>) -> nat
    decreases ds.len(),
{
    if ds.len() == 0 {
        cur
    } else {
        (if cur > ds[0] {
            (cur - ds[0]) as nat
        } else {
            0nat
        }) + ladder_closes(ds[0], ds.drop_first())
    }
}

proof fn lemma_ladder(cur: nat, ds: Seq<nat>)
    ensures
        ladder_opens(cur, ds) + cur == ladder_closes(cur, ds),
    decreases ds.len(),
{
    if ds.len() > 0 {
        lemma_ladder(ds[0], ds.drop_first());
    }
}

/// For any sequence of item depths, the nesting ladder of a list closes as
/// many containers as it opens by the end of the construct.
pub proof fn law_ladder_balanced(ds: Seq<nat>)
    ensures
        ladder_opens(0, ds) == ladder_closes(0, ds),
{
    lemma_ladder(0, ds);
}

/// The depths of the items of a block quote; `None` for a caption line.
pub open spec fn quote_opens(cur: nat, ds: Seq<Option<nat>>) -> nat
    decreases ds.len(),
{
    if ds.len() == 0 {
        0
    } else {
        match ds[0] {
            None => quote_opens(if cur > 0 {
                (cur - 1) as nat
            } else {
                0
            }, ds.drop_first()),
            Some(d) => (if d > cur {
                (d - cur) as nat
            } else {
                0nat
            }) + quote_opens(d, ds.drop_first()),
        }
    }
}

/// Levels a block quote closes: on a depth decrease, at a caption that has
/// a level to close, and at the end.
pub open spec fn quote_closes(cur: nat, ds: Seq<Option<nat>>) -> nat
    decreases ds.len(),
{
    if ds.len() == 0 {
        cur
    } else {
        match ds[0] {
            None => (if cur > 0 {
                1nat
            } else {
                0nat
            }) + quote_closes(if cur > 0 {
                (cur - 1) as nat
            } else {
                0
            }, ds.drop_first()),
            Some(d) => (if cur > d {
                (cur - d) as nat
            } else {
                0nat
            }) + quote_closes(d, ds.drop_first()),
        }
    }
}

proof fn lemma_quote_ladder(cur: nat, ds: Seq<Option<nat>>)
    ensures
        quote_opens(cur, ds) + cur == quote_closes(cur, ds),
    decreases ds.len(),
{
    if ds.len() > 0 {
        match ds[0] {
            None => lemma_quote_ladder(if cur > 0 {
                (cur - 1) as nat
            } else {
                0
            }, ds.drop_first()),
            Some(d) => lemma_quote_ladder(d, ds.drop_first()),
        }
    }
}

/// For any sequence of quote depths and captions, a block quote closes as
/// many `<figure><blockquote>` levels as it opens.
pub proof fn law_quote_ladder_balanced(ds: Seq<Option<nat>>)
    ensures
        quote_opens(0, ds) == quote_closes(0, ds),
{
    lemma_quote_ladder(0, ds);
}

proof fn lemma_code_scan_plain(s: Seq<char>, w_len: int, p: int)
    requires
        0 <= p <= w_len <= s.len(),
        forall|i: int| p <= i < w_len ==> s[i] != '\\' && s[i] != '<',
    ensures
        code_scan(s, p, 0) == (s.subrange(p, w_len) + code_scan(s, w_len, 0).0, code_scan(
            s,
            w_len,
            0,
        ).1),
    decreases w_len - p,
{
    if p < w_len {
        lemma_code_scan_plain(s, w_len, p + 1);
        let r = code_scan(s, p + 1, 0);
        assert(s[p] != '<' && s[p] != '\\');
        assert(code_scan(s, p, 0) == (backslashes(0) + seq![s[p]] + r.0, r.1));
        assert(backslashes(0) + seq![s[p]] + (s.subrange(p + 1, w_len) + code_scan(s, w_len, 0).0)
            =~= s.subrange(p, w_len) + code_scan(s, w_len, 0).0);
    } else {
        assert(s.subrange(p, w_len) + code_scan(s, w_len, 0).0 =~= code_scan(s, w_len, 0).0);
    }
}

/// Of the backslashes (up to three) just before a code span's `</>`, an even
/// number leaves it the span's terminator, two of them standing for one
/// escaped backslash; an odd number makes it literal text, and the scan for
/// the terminator goes on after it.
pub proof fn law_code_parity(w: Seq<char>, n: nat, z: Seq<char>)
    requires
        n <= 3,
        forall|i: int| 0 <= i < w.len() ==> w[i] != '\\' && w[i] != '<',
    ensures
        ({
            let s = w + backslashes(n) + seq!['<', '/', '>'] + z;
            let q = (w.len() + n + 3) as int;
            &&& n == 0 ==> code_scan(s, 0, 0) == (w, Some(q))
            &&& n == 2 ==> code_scan(s, 0, 0) == (w + seq![PH_BACKSLASH], Some(q))
            &&& n == 1 ==> code_scan(s, 0, 0) == (w + seq![PH_CODE_END] + code_scan(s, q, 0).0,
                code_scan(s, q, 0).1)
            &&& n == 3 ==> code_scan(s, 0, 0) == (w + seq![PH_BACKSLASH, PH_CODE_END] + code_scan(
                s,
                q,
                0,
            ).0, code_scan(s, q, 0).1)
        }),
{
    let s = w + backslashes(n) + seq!['<', '/', '>'] + z;
    let m = w.len() as int;
    let q = m + n + 3;
    assert forall|i: int| 0 <= i < m implies s[i] != '\\' && s[i] != '<' by {
        assert(s[i] == w[i]);
    }
    lemma_code_scan_plain(s, m, 0);
    assert(s.subrange(0, m) =~= w);
    if n >= 1 {
        assert(s[m] == backslashes(n)[0]);
    }
    if n >= 2 {
        assert(s[m + 1] == backslashes(n)[1]);
    }
    if n >= 3 {
        assert(s[m + 2] == backslashes(n)[2]);
    }
    assert(s[m + n] == '<' && s[m + n + 1] == '/' && s[m + n + 2] == '>');
    let r = code_scan(s, q, 0);
    if n == 0 {
        assert(code_scan(s, m, 0) == (backslashes(0), Some(q)));
        assert(w + backslashes(0) =~= w);
    } else if n == 1 {
        assert(code_scan(s, m + 1, 1) == (backslashes(0) + seq![PH_CODE_END] + r.0, r.1));
        assert(code_scan(s, m, 0) == code_scan(s, m + 1, 1));
        assert(w + (backslashes(0) + seq![PH_CODE_END] + r.0) =~= w + seq![PH_CODE_END] + r.0);
    } else if n == 2 {
        assert(code_scan(s, m + 2, 2) == (backslashes(0) + seq![PH_BACKSLASH], Some(q)));
        assert(code_scan(s, m + 1, 1) == code_scan(s, m + 2, 2));
        assert(code_scan(s, m, 0) == code_scan(s, m + 1, 1));
        assert(w + (backslashes(0) + seq![PH_BACKSLASH]) =~= w + seq![PH_BACKSLASH]);
    } else {
        assert(code_scan(s, m + 3, 3) == (backslashes(0) + seq![PH_BACKSLASH, PH_CODE_END] + r.0,
        r.1));
        assert(code_scan(s, m + 2, 2) == code_scan(s, m + 3, 3));
        assert(code_scan(s, m + 1, 1) == code_scan(s, m + 2, 2));
        assert(code_scan(s, m, 0) == code_scan(s, m + 1, 1));
        assert(w + (backslashes(0) + seq![PH_BACKSLASH, PH_CODE_END] + r.0) =~= w + seq![
            PH_BACKSLASH,
            PH_CODE_END,
        ] + r.0);
    }
}

/// `n` equals signs.
pub open spec fn eqs(n: nat) -> Seq<char> {
    Seq::new(n, |i: int| '=')
}

proof fn lemma_lead_eqs(n: nat, x: Seq<char>)
    requires
        x.len() > 0 && x[0] != '=',
    ensures
        lead_run(eqs(n) + x, '=') == n,
    decreases n,
{
    if n == 0 {
        assert(eqs(0) + x =~= x);
    } else {
        lemma_lead_eqs((n - 1) as nat, x);
        assert((eqs(n) + x).drop_first() =~= eqs((n - 1) as nat) + x);
    }
}

proof fn lemma_trail_eqs(x: Seq<char>, n: nat)
    requires
        x.len() > 0 && x.last() != '=',
    ensures
        trail_run(x + eqs(n), '=') == n,
    decreases n,
{
    if n == 0 {
        assert(x + eqs(0) =~= x);
    } else {
        lemma_trail_eqs(x, (n - 1) as nat);
        assert((x + eqs(n)).drop_last() =~= x + eqs((n - 1) as nat));
    }
}

/// A one-line document that holds no line feed and does not start or end
/// with whitespace is that line on its own.
proof fn lemma_single_line(line: Seq<char>)
    requires
        line.len() > 0,
        !is_space(line[0]),
        !is_space(line.last()),
        forall|i: int| 0 <= i < line.len() ==> line[i] != '\n',
    ensures
        lines_of(line) == seq![line],
        trim(line) == line,
{
    lemma_find_from(line, '\n', 0);
    assert(line.last() != '\n');
    assert(line.subrange(0, line.len() as int) =~= line);
    assert(split_from(line, '\n', 0) =~= seq![line]);
    assert(lead_ws(line) == 0);
    assert(trail_ws(line) == 0);
}

/// Markup-free text is its own inline HTML.
pub proof fn lemma_text_plain(s: Seq<char>)
    requires
        forall|i: int| 0 <= i < s.len() - 1 ==> !is_opener(#[trigger] s[i], s[i + 1]),
    ensures
        text_html(s) == s,
    decreases s.len(),
{
    if s.len() >= 2 {
        assert(!is_opener(s[0], s[1]));
        let t = s.drop_first();
        assert forall|i: int| 0 <= i < t.len() - 1 implies !is_opener(#[trigger] t[i], t[i + 1]) by {
            assert(t[i] == s[i + 1] && t[i + 1] == s[i + 2]);
        }
        lemma_text_plain(t);
        assert(seq![s[0]] + t =~= s);
    }
}

/// The final pass over a generated `<hN>` tag around `inner`.
proof fn lemma_finish_heading(d: char, inner: Seq<char>)
    requires
        '1' <= d <= '6',
    ensures
        finish(element(seq!['h', d], Seq::empty(), inner)) == seq!['<', 'h', d, '>'] + finish(inner)
            + seq!['<', '/', 'h', d, '>'],
{
    let lt = crate::escape::PH_LT;
    let gt = crate::escape::PH_GT;
    let a = seq![lt, 'h', d, gt];
    let b = seq![lt, '/', 'h', d, gt];
    assert(element(seq!['h', d], Seq::empty(), inner) =~= a + inner + b);
    lemma_finish_concat(a, inner);
    lemma_finish_concat(a + inner, b);
    lemma_finish_chars(lt, 'h', d, gt);
    lemma_finish_char(lt);
    lemma_finish_char('/');
    assert(b =~= seq![lt, '/'] + seq!['h', d, gt]);
    assert(seq![lt, '/'] =~= seq![lt] + seq!['/']);
    lemma_finish_concat(seq![lt], seq!['/']);
    lemma_finish_three('h', d, gt);
    lemma_finish_concat(seq![lt, '/'], seq!['h', d, gt]);
    assert(finish(seq![lt, '/']) =~= seq!['<', '/']);
    assert(finish(b) =~= seq!['<', '/', 'h', d, '>']);
}

proof fn lemma_finish_three(x: char, y: char, z: char)
    ensures
        finish(seq![x, y, z]) == emit(x) + emit(y) + emit(z),
{
    lemma_finish_char(x);
    lemma_finish_char(y);
    lemma_finish_char(z);
    assert(seq![x, y, z] =~= seq![x] + seq![y] + seq![z]);
    assert(seq![x] + seq![y] =~= seq![x, y]);
    lemma_finish_concat(seq![x], seq![y]);
    lemma_finish_concat(seq![x, y], seq![z]);
}

proof fn lemma_finish_chars(w: char, x: char, y: char, z: char)
    ensures
        finish(seq![w, x, y, z]) == emit(w) + emit(x) + emit(y) + emit(z),
{
    lemma_finish_three(w, x, y);
    lemma_finish_char(z);
    assert(seq![w, x, y, z] =~= seq![w, x, y] + seq![z]);
    lemma_finish_concat(seq![w, x, y], seq![z]);
}

/// The text between the markers of a heading, trimmed, is the heading's text.
proof fn lemma_trim_padded(t: Seq<char>)
    requires
        t.len() > 0 ==> !is_space(t[0]) && !is_space(t.last()),
    ensures
        trim(seq![' '] + t + seq![' ']) == t,
{
    let mid = seq![' '] + t + seq![' '];
    assert(mid.drop_first() =~= t + seq![' ']);
    assert(mid.drop_last() =~= seq![' '] + t);
    if t.len() == 0 {
        assert(mid.drop_first().drop_first() =~= Seq::<char>::empty());
        assert(lead_ws(Seq::<char>::empty()) == 0);
        assert(lead_ws(mid.drop_first()) == 1);
        assert(lead_ws(mid) == 2);
        assert(trim(mid) =~= t);
    } else {
        assert((t + seq![' '])[0] == t[0]);
        assert(lead_ws(t + seq![' ']) == 0);
        assert(lead_ws(mid) == 1);
        assert((seq![' '] + t).last() == t.last());
        assert(trail_ws(seq![' '] + t) == 0);
        assert(trail_ws(mid) == 1);
        assert(trim(mid) =~= t);
    }
}

/// The heading line of `law_heading` is a single, trimmed heading line.
proof fn lemma_heading_line(n: nat, t: Seq<char>)
    requires
        1 <= n <= 6,
        forall|i: int| 0 <= i < t.len() ==> t[i] != '\n',
    ensures
        ({
            let line = eqs(n) + seq![' '] + t + seq![' '] + eqs(n);
            &&& lines_of(line) == seq![line]
            &&& trim(line) == line
            &&& is_heading(line)
            &&& lead_run(line, '=') == n
            &&& line.subrange(n as int, line.len() - n) == seq![' '] + t + seq![' ']
        }),
{
    let line = eqs(n) + seq![' '] + t + seq![' '] + eqs(n);
    let len = line.len();
    assert forall|i: int| 0 <= i < len implies line[i] != '\n' by {
        if n + 1 <= i < n + 1 + t.len() {
            assert(line[i] == t[i - n - 1]);
        }
    }
    assert(line[0] == '=');
    assert(line.last() == '=');
    lemma_single_line(line);
    let x = seq![' '] + t + seq![' '] + eqs(n);
    assert(line =~= eqs(n) + x);
    lemma_lead_eqs(n, x);
    let y = eqs(n) + seq![' '] + t + seq![' '];
    assert(line =~= y + eqs(n));
    lemma_trail_eqs(y, n);
    assert(line[n as int] == ' ');
    assert(line.subrange(n as int, len - n) =~= seq![' '] + t + seq![' ']);
}

/// A line of `n` equals signs, a space, a text, a space and `n` equals
/// signs, with `1 <= n <= 6`, is a level-`n` heading of that text.
pub proof fn law_heading(n: nat, t: Seq<char>)
    requires
        1 <= n <= 6,
        forall|i: int| 0 <= i < t.len() ==> t[i] != '\n',
        t.len() > 0 ==> !is_space(t[0]) && !is_space(t.last()),
    ensures
        document(eqs(n) + seq![' '] + t + seq![' '] + eqs(n)) == seq!['<', 'h', digit(n), '>']
            + finish(text_html(t)) + seq!['<', '/', 'h', digit(n), '>'],
{
    let line = eqs(n) + seq![' '] + t + seq![' '] + eqs(n);
    lemma_heading_line(n, t);
    lemma_trim_padded(t);
    assert(render(seq![line], 1, true) == Seq::<char>::empty());
    assert(render(seq![line], 0, false) == title_html(line) + render(seq![line], 1, true));
    assert(render(seq![line], 0, false) =~= title_html(line));
    let d = digit(n);
    lemma_finish_heading(d, text_html(t));
}

/// A line that starts with `=` but is no heading (more than six equals
/// signs, or a closing run that does not match) is ordinary text: without
/// inline markup, the input itself with its `&`, `<`, `>` escaped.
pub proof fn law_not_heading(line: Seq<char>)
    requires
        line.len() > 0,
        line[0] == '=',
        !is_space(line.last()),
        !is_heading(line),
        forall|i: int| 0 <= i < line.len() ==> line[i] != '\n',
    ensures
        document(line) == finish(text_html(line)),
        is_user_text(line) && (forall|i: int|
            0 <= i < line.len() - 1 ==> !is_opener(#[trigger] line[i], line[i + 1]))
            ==> document(line) == escape_html(line),
{
    lemma_single_line(line);
    assert(render(seq![line], 1, true) == Seq::<char>::empty());
    assert(render(seq![line], 0, false) =~= title_html(line));
    if is_user_text(line) && (forall|i: int|
        0 <= i < line.len() - 1 ==> !is_opener(#[trigger] line[i], line[i + 1])) {
        lemma_text_plain(line);
        law_user_text_escaped(line);
    }
}

/// A code span whose body holds no backslash and no `<` shows that body
/// as it is, and the rest of the line is parsed as usual.
pub proof fn law_code_plain(w: Seq<char>, z: Seq<char>)
    requires
        forall|i: int| 0 <= i < w.len() ==> w[i] != '\\' && w[i] != '<',
    ensures
        text_html(seq!['<', '>'] + w + seq!['<', '/', '>'] + z) == element(
            "code"@,
            Seq::empty(),
            w,
        ) + text_html(z),
{
    let rest = w + seq!['<', '/', '>'] + z;
    law_code_parity(w, 0, z);
    assert(rest =~= w + backslashes(0) + seq!['<', '/', '>'] + z);
    let s = seq!['<', '>'] + w + seq!['<', '/', '>'] + z;
    assert(s =~= seq!['<', '>'] + rest);
    assert(s.subrange(2, s.len() as int) =~= rest);
    assert(rest.subrange((w.len() + 3) as int, rest.len() as int) =~= z);
}

/// A marker made of lowercase roman numerals is a roman marker, although
/// its letters are also lowercase letters: numerals take priority.
pub proof fn law_roman_before_letters(m: Seq<char>)
    requires
        m.len() > 0,
        consists(m, OrderedListMarker::LowercaseNumerals.chars()),
    ensures
        classify(m) == Some(OrderedListMarker::LowercaseNumerals),
{
    let c = m[0];
    assert(OrderedListMarker::LowercaseNumerals.chars().contains(c));
    assert(!OrderedListMarker::Numerical.chars().contains(c));
    assert(!consists(m, OrderedListMarker::Numerical.chars()));
}

/// The tags of a ladder walk from depth `cur` through the depths `ds`, with
/// `items[k]` after the step to `ds[k]`, and the levels still open closed at
/// the end.
pub open spec fn ladder_html(
    cur: nat,
    ds: Seq<nat>,
    items: Seq<Seq<char>>,
    open: Seq<char>,
    close: Seq<char>,
) -> Seq<char>
    decreases ds.len(),
{
    if ds.len() == 0 {
        repeat(close, cur)
    } else {
        ladder(cur, ds[0], open, close) + items[0] + ladder_html(
            ds[0],
            ds.drop_first(),
            items.drop_first(),
            open,
            close,
        )
    }
}

/// The depths of the list lines `j..end`.
pub open spec fn ul_depths(lines: Seq<Seq<char>>, j: int, end: int) -> Seq<nat>
    decreases end - j,
{
    if j < 0 || j >= end {
        Seq::empty()
    } else {
        seq![ul_depth(lines[j])] + ul_depths(lines, j + 1, end)
    }
}

/// The `<li>` elements of the list lines `j..end`.
pub open spec fn ul_item_html(lines: Seq<Seq<char>>, j: int, end: int) -> Seq<Seq<char>>
    decreases end - j,
{
    if j < 0 || j >= end {
        Seq::empty()
    } else {
        seq![element("li"@, Seq::empty(), li_html(ul_text(lines[j])))] + ul_item_html(
            lines,
            j + 1,
            end,
        )
    }
}

/// An unordered list is the ladder walk over the depths of its lines, each
/// item after its step, so it opens `ladder_opens` and closes
/// `ladder_closes` levels of `<ul>`, which `law_ladder_balanced` shows equal.
pub proof fn law_ul_is_ladder(lines: Seq<Seq<char>>, j: int, end: int, cur: nat)
    requires
        0 <= j,
    ensures
        ul_items(lines, j, end, cur) == ladder_html(
            cur,
            ul_depths(lines, j, end),
            ul_item_html(lines, j, end),
            opening("ul"@, Seq::empty()),
            closing("ul"@),
        ),
    decreases end - j,
{
    if j < end {
        law_ul_is_ladder(lines, j + 1, end, ul_depth(lines[j]));
        let ds = ul_depths(lines, j, end);
        let its = ul_item_html(lines, j, end);
        assert(ds.drop_first() =~= ul_depths(lines, j + 1, end));
        assert(its.drop_first() =~= ul_item_html(lines, j + 1, end));
    }
}

} // verus!
