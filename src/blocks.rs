//! Headings, fenced code blocks and tables.
use vstd::prelude::*;

use crate::escape::{PH_GT, PH_LT, PH_QUOTE};
use crate::html::{closing, element, opening};
use crate::lists::{attr, close_tag, open_tag, push_element};
use crate::spans::{inline_vec, text_html};
use crate::text::{
    lead_ws, push_all, push_str, slice, split, split_from, trim, trimmed,
    views,
};

verus! {

/// Number of leading `c` in `s`.
pub open spec fn lead_run(s: Seq<char>, c: char) -> nat
    decreases s.len(),
{
    if s.len() > 0 && s[0] == c {
        1 + lead_run(s.drop_first(), c)
    } else {
        0
    }
}

/// Number of trailing `c` in `s`.
pub open spec fn trail_run(s: Seq<char>, c: char) -> nat
    decreases s.len(),
{
    if s.len() > 0 && s.last() == c {
        1 + trail_run(s.drop_last(), c)
    } else {
        0
    }
}

pub proof fn lemma_trail_run(s: Seq<char>, c: char)
    ensures
        trail_run(s, c) <= s.len(),
        forall|i: int| s.len() - trail_run(s, c) <= i < s.len() ==> #[trigger] s[i] == c,
    decreases s.len(),
{
    if s.len() > 0 && s.last() == c {
        lemma_trail_run(s.drop_last(), c);
        assert forall|i: int| s.len() - trail_run(s, c) <= i < s.len() implies #[trigger] s[i]
            == c by {
            if i < s.len() - 1 {
                assert(s[i] == s.drop_last()[i]);
            }
        }
    }
}

fn lead_run_exec(s: &Vec<char>, c: char) -> (r: usize)
    ensures
        r == lead_run(s@, c),
        r <= s.len(),
{
    let mut i: usize = 0;
    assert(s@.subrange(0, s.len() as int) =~= s@);
    while i < s.len() && s[i] == c
        invariant
            i <= s.len(),
            lead_run(s@, c) == i + lead_run(s@.subrange(i as int, s.len() as int), c),
        decreases s.len() - i,
    {
        let ghost t = s@.subrange(i as int, s.len() as int);
        assert(t.drop_first() =~= s@.subrange(i + 1, s.len() as int));
        assert(t[0] == s@[i as int]);
        i = i + 1;
    }
    proof {
        let t = s@.subrange(i as int, s.len() as int);
        if i < s.len() {
            assert(t[0] == s@[i as int]);
        }
    }
    i
}

fn trail_run_exec(s: &Vec<char>, c: char) -> (r: usize)
    ensures
        r == trail_run(s@, c),
        r <= s.len(),
{
    let mut j: usize = s.len();
    assert(s@.subrange(0, s.len() as int) =~= s@);
    while j > 0 && s[j - 1] == c
        invariant
            j <= s.len(),
            trail_run(s@, c) == (s.len() - j) + trail_run(s@.subrange(0, j as int), c),
        decreases j,
    {
        let ghost t = s@.subrange(0, j as int);
        assert(t.drop_last() =~= s@.subrange(0, j - 1));
        assert(t.last() == s@[j - 1]);
        j = j - 1;
    }
    proof {
        let t = s@.subrange(0, j as int);
        if j > 0 {
            assert(t.last() == s@[j - 1]);
        }
    }
    s.len() - j
}

/// The digit that names heading level `n`.
pub open spec fn digit(n: nat) -> char {
    if n == 1 {
        '1'
    } else if n == 2 {
        '2'
    } else if n == 3 {
        '3'
    } else if n == 4 {
        '4'
    } else if n == 5 {
        '5'
    } else {
        '6'
    }
}

/// A heading line: a run of one to six `=`, a space, and the same run at the
/// end.
pub open spec fn is_heading(line: Seq<char>) -> bool {
    let n = lead_run(line, '=');
    1 <= n <= 6 && n < line.len() && line[n as int] == ' ' && trail_run(line, '=') == n
}

/// The HTML of a line that starts with `=`: a heading, or its inline markup
/// where the markers do not make one.
pub open spec fn title_html(line: Seq<char>) -> Seq<char> {
    if is_heading(line) {
        let n = lead_run(line, '=');
        let tag = seq!['h', digit(n)];
        element(tag, Seq::empty(), text_html(trim(line.subrange(n as int, line.len() - n))))
    } else {
        text_html(line)
    }
}

pub fn parse_title(line: &Vec<char>) -> (r: Vec<char>)
    ensures
        r@ == title_html(line@),
{
    let n = lead_run_exec(line, '=');
    let m = trail_run_exec(line, '=');
    if 1 <= n && n <= 6 && n < line.len() && line[n] == ' ' && m == n {
        proof {
            lemma_trail_run(line@, '=');
            if n + m > line.len() - 1 {
                assert(line@[n as int] == '=');
            }
        }
        let d = if n == 1 {
            '1'
        } else if n == 2 {
            '2'
        } else if n == 3 {
            '3'
        } else if n == 4 {
            '4'
        } else if n == 5 {
            '5'
        } else {
            '6'
        };
        let body = slice(line, n, line.len() - n);
        let t = trimmed(&body);
        let inner = inline_vec(&t);
        let mut out: Vec<char> = Vec::new();
        out.push(PH_LT);
        out.push('h');
        out.push(d);
        out.push(PH_GT);
        push_all(&mut out, &inner);
        out.push(PH_LT);
        out.push('/');
        out.push('h');
        out.push(d);
        out.push(PH_GT);
        assert(out@ =~= element(seq!['h', d], Seq::empty(), inner@));
        out
    } else {
        inline_vec(line)
    }
}

/// What `char::is_alphabetic` says of `c`.
pub uninterp spec fn alphabetic(c: char) -> bool;

/// Relies on `char::is_alphabetic`: whether `c` has the Unicode
/// `Alphabetic` property.
#[verifier::external_body]
fn is_alphabetic(c: char) -> (r: bool)
    ensures
        r == alphabetic(c),
{
    c.is_alphabetic()
}

/// The opening line of a fenced code block: `<name>`, with a name of
/// letters only, possibly empty.
pub open spec fn is_fence(line: Seq<char>) -> bool {
    &&& line.len() >= 2
    &&& line[0] == '<'
    &&& line.last() == '>'
    &&& forall|k: int| 1 <= k < line.len() - 1 ==> alphabetic(#[trigger] line[k])
}

pub fn fence_exec(line: &Vec<char>) -> (r: bool)
    ensures
        r == is_fence(line@),
{
    if line.len() < 2 || line[0] != '<' || line[line.len() - 1] != '>' {
        return false;
    }
    let mut k: usize = 1;
    while k < line.len() - 1
        invariant
            1 <= k <= line.len() - 1,
            line.len() >= 2,
            forall|m: int| 1 <= m < k ==> alphabetic(#[trigger] line@[m]),
        decreases line.len() - k,
    {
        if !is_alphabetic(line[k]) {
            return false;
        }
        k = k + 1;
    }
    true
}

/// The line that ends a fenced code block.
pub open spec fn is_terminator(s: Seq<char>) -> bool {
    s == seq!['<', '/', '>']
}

/// First index at or after `j` that holds a terminator line.
pub open spec fn terminator(lines: Seq<Seq<char>>, j: int) -> Option<int>
    decreases lines.len() - j,
{
    if j < 0 || j >= lines.len() {
        None
    } else if is_terminator(lines[j]) {
        Some(j)
    } else {
        terminator(lines, j + 1)
    }
}

pub proof fn lemma_terminator(lines: Seq<Seq<char>>, j: int)
    requires
        0 <= j,
    ensures
        terminator(lines, j) matches Some(t) ==> j <= t < lines.len(),
    decreases lines.len() - j,
{
    if j < lines.len() && !is_terminator(lines[j]) {
        lemma_terminator(lines, j + 1);
    }
}

/// The least indentation of the lines `j..hi` that hold more than
/// whitespace, given the least one before `j`.
pub open spec fn indent_scan(lines: Seq<Seq<char>>, j: int, hi: int, best: Option<nat>) -> Option<
    nat,
>
    decreases hi - j,
{
    if j < 0 || j >= hi {
        best
    } else {
        let l = lines[j];
        let w = lead_ws(l);
        if w < l.len() {
            indent_scan(
                lines,
                j + 1,
                hi,
                Some(
                    match best {
                        Some(b) => if b < w {
                            b
                        } else {
                            w
                        },
                        None => w,
                    },
                ),
            )
        } else {
            indent_scan(lines, j + 1, hi, best)
        }
    }
}

/// One line of a code block with `ind` columns of indentation taken off.
pub open spec fn code_line(l: Seq<char>, ind: nat) -> Seq<char> {
    if l.len() == 0 {
        seq!['\n']
    } else {
        l.subrange(if ind < l.len() { ind as int } else { l.len() as int }, l.len() as int) + seq![
            '\n',
        ]
    }
}

/// The lines `j..hi` of a code block.
pub open spec fn code_body(lines: Seq<Seq<char>>, j: int, hi: int, ind: nat) -> Seq<char>
    decreases hi - j,
{
    if j < 0 || j >= hi {
        Seq::empty()
    } else {
        code_line(lines[j], ind) + code_body(lines, j + 1, hi, ind)
    }
}

/// The attributes of a code block's `<code>` tag.
pub open spec fn lang_attr(lang: Seq<char>) -> Seq<char> {
    if lang.len() == 0 {
        Seq::empty()
    } else {
        attr("class"@, "language-"@ + lang)
    }
}

/// A fenced code block opened at line `i` and closed at line `t`.
pub open spec fn code_html(lines: Seq<Seq<char>>, i: int, t: int) -> Seq<char> {
    let line = trim(lines[i]);
    let lang = line.subrange(1, line.len() - 1);
    let ind = match indent_scan(lines, i + 1, t, None) {
        Some(w) => w,
        None => 0,
    };
    opening("pre"@, Seq::empty()) + opening("code"@, lang_attr(lang)) + code_body(
        lines,
        i + 1,
        t,
        ind,
    ) + closing("code"@) + closing("pre"@)
}

fn lead_ws_exec(s: &Vec<char>) -> (r: usize)
    ensures
        r == lead_ws(s@),
{
    let mut i: usize = 0;
    assert(s@.subrange(0, s.len() as int) =~= s@);
    while i < s.len() && crate::text::space(s[i])
        invariant
            i <= s.len(),
            lead_ws(s@) == i + lead_ws(s@.subrange(i as int, s.len() as int)),
        decreases s.len() - i,
    {
        let ghost u = s@.subrange(i as int, s.len() as int);
        assert(u.drop_first() =~= s@.subrange(i + 1, s.len() as int));
        assert(u[0] == s@[i as int]);
        i = i + 1;
    }
    proof {
        let u = s@.subrange(i as int, s.len() as int);
        if i < s.len() {
            assert(u[0] == s@[i as int]);
        }
    }
    i
}

/// The least indentation of the lines `lo..hi` that hold more than
/// whitespace (0 where none does).
fn min_indent(lines: &Vec<Vec<char>>, lo: usize, hi: usize) -> (r: usize)
    requires
        lo <= hi <= lines.len(),
    ensures
        r as nat == match indent_scan(views(lines@), lo as int, hi as int, None) {
            Some(w) => w,
            None => 0,
        },
{
    let ghost ls = views(lines@);
    let mut best: Option<usize> = None;
    let mut j: usize = lo;
    while j < hi
        invariant
            lo <= j <= hi <= lines.len(),
            ls == views(lines@),
            indent_scan(ls, j as int, hi as int, pos_nat(best)) == indent_scan(
                ls,
                lo as int,
                hi as int,
                None,
            ),
        decreases hi - j,
    {
        assert(ls[j as int] == lines@[j as int]@);
        let w = lead_ws_exec(&lines[j]);
        if w < lines[j].len() {
            best = Some(
                match best {
                    Some(b) => if b < w {
                        b
                    } else {
                        w
                    },
                    None => w,
                },
            );
        }
        j = j + 1;
    }
    match best {
        Some(w) => w,
        None => 0,
    }
}

/// Writes the lines `lo..hi` of a code block with `ind` columns taken off.
fn push_code_body(lines: &Vec<Vec<char>>, lo: usize, hi: usize, ind: usize, out: &mut Vec<char>)
    requires
        lo <= hi <= lines.len(),
    ensures
        final(out)@ == old(out)@ + code_body(views(lines@), lo as int, hi as int, ind as nat),
{
    let ghost ls = views(lines@);
    let ghost head = out@;
    let mut k: usize = lo;
    assert(head + code_body(ls, lo as int, hi as int, ind as nat) =~= head + code_body(
        ls,
        lo as int,
        hi as int,
        ind as nat,
    ));
    while k < hi
        invariant
            lo <= k <= hi <= lines.len(),
            ls == views(lines@),
            out@ + code_body(ls, k as int, hi as int, ind as nat) == head + code_body(
                ls,
                lo as int,
                hi as int,
                ind as nat,
            ),
        decreases hi - k,
    {
        let l = &lines[k];
        assert(ls[k as int] == l@);
        let ghost before = out@;
        if l.len() == 0 {
            out.push('\n');
        } else {
            let from = if ind < l.len() {
                ind
            } else {
                l.len()
            };
            let part = slice(l, from, l.len());
            push_all(out, &part);
            out.push('\n');
        }
        assert(out@ =~= before + code_line(l@, ind as nat));
        let ghost rest = code_body(ls, k + 1, hi as int, ind as nat);
        assert(before + (code_line(l@, ind as nat) + rest) =~= out@ + rest);
        k = k + 1;
    }
    assert(code_body(ls, k as int, hi as int, ind as nat) =~= Seq::<char>::empty());
    assert(out@ + Seq::<char>::empty() =~= out@);
}

/// Writes the code block opened at line `i` and closed at line `t`.
pub(crate) fn parse_codeblock(lines: &Vec<Vec<char>>, i: usize, t: usize, out: &mut Vec<char>)
    requires
        i < t <= lines.len(),
        trim(lines@[i as int]@).len() >= 2,
    ensures
        final(out)@ == old(out)@ + code_html(views(lines@), i as int, t as int),
{
    let ghost ls = views(lines@);
    assert(ls[i as int] == lines@[i as int]@);
    let line = trimmed(&lines[i]);
    let lang = slice(&line, 1, line.len() - 1);
    let ghost o = out@;
    let pre = open_tag("pre");
    push_all(out, &pre);
    out.push(PH_LT);
    push_str(out, "code");
    if lang.len() > 0 {
        out.push(' ');
        push_str(out, "class");
        out.push('=');
        out.push(PH_QUOTE);
        push_str(out, "language-");
        push_all(out, &lang);
        out.push(PH_QUOTE);
    }
    out.push(PH_GT);
    assert(out@ =~= o + opening("pre"@, Seq::empty()) + opening("code"@, lang_attr(lang@)));
    let ind = min_indent(lines, i + 1, t);
    push_code_body(lines, i + 1, t, ind, out);
    let c = close_tag("code");
    push_all(out, &c);
    let p = close_tag("pre");
    push_all(out, &p);
    assert(out@ =~= o + code_html(ls, i as int, t as int));
}

/// An exec indentation as a spec one.
pub open spec fn pos_nat(o: Option<usize>) -> Option<nat> {
    match o {
        Some(k) => Some(k as nat),
        None => None,
    }
}

/// A line of a table: bounded by `|` at both ends.
pub open spec fn is_table_row(s: Seq<char>) -> bool {
    let t = trim(s);
    t.len() > 0 && t[0] == '|' && t.last() == '|'
}

/// First index at or after `j` that is not a table line.
pub open spec fn table_end(lines: Seq<Seq<char>>, j: int) -> int
    decreases lines.len() - j,
{
    if j < 0 || j >= lines.len() || !is_table_row(lines[j]) {
        j
    } else {
        table_end(lines, j + 1)
    }
}

pub proof fn lemma_table_end(lines: Seq<Seq<char>>, j: int)
    requires
        0 <= j,
    ensures
        j <= table_end(lines, j),
        j <= lines.len() ==> table_end(lines, j) <= lines.len(),
    decreases lines.len() - j,
{
    if j < lines.len() && is_table_row(lines[j]) {
        lemma_table_end(lines, j + 1);
    }
}

/// The trimmed cells of a trimmed table line `|a|b|…|`.
pub open spec fn cells(t: Seq<char>) -> Seq<Seq<char>> {
    if t.len() < 2 {
        Seq::empty()
    } else {
        split_from(t.subrange(1, t.len() - 1), '|', 0).map_values(|c: Seq<char>| trim(c))
    }
}

/// A row made only of `-` cells: it separates the header from the body.
pub open spec fn is_separator(cs: Seq<Seq<char>>) -> bool {
    &&& cs.len() > 0
    &&& forall|k: int|
        0 <= k < cs.len() ==> (#[trigger] cs[k]).len() > 0 && forall|m: int|
            0 <= m < cs[k].len() ==> cs[k][m] == '-'
}

/// Some line in `j..end` is a separator row.
pub open spec fn has_separator(lines: Seq<Seq<char>>, j: int, end: int) -> bool
    decreases end - j,
{
    if j < 0 || j >= end {
        false
    } else {
        is_separator(cells(trim(lines[j]))) || has_separator(lines, j + 1, end)
    }
}

/// The cells of a row, each as a `tag` element.
pub open spec fn cells_html(cs: Seq<Seq<char>>, tag: Seq<char>) -> Seq<char>
    decreases cs.len(),
{
    if cs.len() == 0 {
        Seq::empty()
    } else {
        cells_html(cs.drop_last(), tag) + element(tag, Seq::empty(), cs.last())
    }
}

/// The rows `j..end`. Rows before the first separator are header rows where
/// the table has a separator; separators are not shown.
pub open spec fn table_rows(lines: Seq<Seq<char>>, j: int, end: int, sep: bool, header: bool) -> Seq<
    char,
>
    decreases end - j,
{
    if j < 0 || j >= end {
        Seq::empty()
    } else {
        let cs = cells(trim(lines[j]));
        if is_separator(cs) {
            table_rows(lines, j + 1, end, sep, false)
        } else {
            let tag = if sep && header {
                "th"@
            } else {
                "td"@
            };
            element("tr"@, Seq::empty(), cells_html(cs, tag)) + table_rows(
                lines,
                j + 1,
                end,
                sep,
                header,
            )
        }
    }
}

/// A table starting at line `i`: its HTML and the first line after it.
pub open spec fn table_html(lines: Seq<Seq<char>>, i: int) -> (Seq<char>, int) {
    let end = table_end(lines, i + 1);
    (
        opening("table"@, Seq::empty()) + table_rows(lines, i, end, has_separator(lines, i, end), true)
            + closing("table"@),
        end,
    )
}

fn table_row_exec(s: &Vec<char>) -> (r: bool)
    ensures
        r == is_table_row(s@),
{
    let t = trimmed(s);
    t.len() > 0 && t[0] == '|' && t[t.len() - 1] == '|'
}

fn cells_exec(t: &Vec<char>) -> (r: Vec<Vec<char>>)
    ensures
        views(r@) == cells(t@),
{
    let mut out: Vec<Vec<char>> = Vec::new();
    if t.len() < 2 {
        assert(views(out@) =~= cells(t@));
        return out;
    }
    let inner = slice(t, 1, t.len() - 1);
    let parts = split(&inner, '|');
    let ghost ps = views(parts@);
    let mut k: usize = 0;
    while k < parts.len()
        invariant
            k <= parts.len(),
            ps == views(parts@),
            views(out@) == ps.subrange(0, k as int).map_values(|c: Seq<char>| trim(c)),
        decreases parts.len() - k,
    {
        let c = trimmed(&parts[k]);
        assert(ps[k as int] == parts@[k as int]@);
        let ghost cv = c@;
        let ghost prev = views(out@);
        out.push(c);
        assert(views(out@) =~= prev.push(cv));
        assert(prev.push(cv) =~= ps.subrange(0, k + 1).map_values(|c: Seq<char>| trim(c)));
        k = k + 1;
    }
    assert(ps.subrange(0, parts.len() as int) =~= ps);
    out
}

fn separator_exec(cs: &Vec<Vec<char>>) -> (r: bool)
    ensures
        r == is_separator(views(cs@)),
{
    let ghost v = views(cs@);
    if cs.len() == 0 {
        return false;
    }
    let mut k: usize = 0;
    while k < cs.len()
        invariant
            k <= cs.len(),
            v == views(cs@),
            forall|a: int|
                0 <= a < k ==> (#[trigger] v[a]).len() > 0 && forall|m: int|
                    0 <= m < v[a].len() ==> v[a][m] == '-',
        decreases cs.len() - k,
    {
        let c = &cs[k];
        assert(v[k as int] == c@);
        if c.len() == 0 {
            assert(v[k as int].len() == 0);
            return false;
        }
        let mut m: usize = 0;
        while m < c.len()
            invariant
                m <= c.len(),
                k < cs.len(),
                v == views(cs@),
                v[k as int] == c@,
                forall|x: int| 0 <= x < m ==> c@[x] == '-',
            decreases c.len() - m,
        {
            if c[m] != '-' {
                assert(v[k as int][m as int] != '-');
                return false;
            }
            m = m + 1;
        }
        k = k + 1;
    }
    true
}

fn push_cells(out: &mut Vec<char>, cs: &Vec<Vec<char>>, tag: &str)
    ensures
        final(out)@ == old(out)@ + cells_html(views(cs@), tag@),
{
    let ghost o = out@;
    let ghost v = views(cs@);
    let mut k: usize = 0;
    assert(v.subrange(0, 0) =~= Seq::<Seq<char>>::empty());
    while k < cs.len()
        invariant
            k <= cs.len(),
            v == views(cs@),
            out@ == o + cells_html(v.subrange(0, k as int), tag@),
        decreases cs.len() - k,
    {
        push_element(out, tag, &cs[k]);
        let ghost w = v.subrange(0, k + 1);
        assert(w.drop_last() =~= v.subrange(0, k as int));
        assert(w.last() == cs@[k as int]@);
        assert(out@ =~= o + cells_html(w, tag@));
        k = k + 1;
    }
    assert(v.subrange(0, cs.len() as int) =~= v);
}

pub(crate) fn parse_table(lines: &Vec<Vec<char>>, i: usize) -> (r: (Vec<char>, usize))
    requires
        i < lines.len(),
    ensures
        r.0@ == table_html(views(lines@), i as int).0,
        r.1 == table_html(views(lines@), i as int).1,
        i < r.1 <= lines.len(),
{
    let ghost ls = views(lines@);
    proof {
        lemma_table_end(ls, i + 1);
    }
    let mut end: usize = i + 1;
    while end < lines.len() && table_row_exec(&lines[end])
        invariant
            i < end <= lines.len(),
            ls == views(lines@),
            table_end(ls, end as int) == table_end(ls, i + 1),
        decreases lines.len() - end,
    {
        assert(ls[end as int] == lines@[end as int]@);
        end = end + 1;
    }
    proof {
        if end < lines.len() {
            assert(ls[end as int] == lines@[end as int]@);
        }
    }
    // Decide the shape before writing any row.
    let mut sep = false;
    let mut j: usize = end;
    while j > i
        invariant
            i <= j <= end <= lines.len(),
            ls == views(lines@),
            has_separator(ls, i as int, end as int) == (sep || has_separator(
                ls,
                i as int,
                j as int,
            )) || (!sep && has_separator(ls, i as int, end as int) == has_separator(
                ls,
                i as int,
                j as int,
            )),
            sep ==> has_separator(ls, i as int, end as int),
            !sep ==> has_separator(ls, i as int, end as int) == has_separator(
                ls,
                i as int,
                j as int,
            ),
        decreases j - i,
    {
        j = j - 1;
        let t = trimmed(&lines[j]);
        let cs = cells_exec(&t);
        assert(ls[j as int] == lines@[j as int]@);
        if separator_exec(&cs) {
            proof {
                lemma_has_separator(ls, i as int, j as int, end as int);
            }
            sep = true;
        } else {
            proof {
                lemma_has_separator_split(ls, i as int, j as int);
            }
        }
    }
    let mut out = open_tag("table");
    let ghost head = out@;
    let mut header = true;
    let mut k: usize = i;
    assert(out@ + table_rows(ls, i as int, end as int, sep, true) =~= head + table_rows(
        ls,
        i as int,
        end as int,
        sep,
        true,
    ));
    while k < end
        invariant
            i <= k <= end <= lines.len(),
            ls == views(lines@),
            out@ + table_rows(ls, k as int, end as int, sep, header) == head + table_rows(
                ls,
                i as int,
                end as int,
                sep,
                true,
            ),
        decreases end - k,
    {
        assert(ls[k as int] == lines@[k as int]@);
        let t = trimmed(&lines[k]);
        let cs = cells_exec(&t);
        let ghost before = out@;
        if separator_exec(&cs) {
            header = false;
        } else {
            let tag = if sep && header {
                "th"
            } else {
                "td"
            };
            let tr = open_tag("tr");
            push_all(&mut out, &tr);
            push_cells(&mut out, &cs, tag);
            let c = close_tag("tr");
            push_all(&mut out, &c);
            let ghost rest = table_rows(ls, k + 1, end as int, sep, header);
            assert(before + (element("tr"@, Seq::empty(), cells_html(views(cs@), tag@)) + rest)
                =~= out@ + rest);
        }
        k = k + 1;
    }
    let c = close_tag("table");
    push_all(&mut out, &c);
    (out, end)
}

pub proof fn lemma_has_separator(lines: Seq<Seq<char>>, i: int, j: int, end: int)
    requires
        0 <= i <= j < end,
        is_separator(cells(trim(lines[j]))),
    ensures
        has_separator(lines, i, end),
    decreases j - i,
{
    if i < j {
        lemma_has_separator(lines, i + 1, j, end);
    }
}

/// Without a separator at `j`, the lines `i..j+1` have one where `i..j` have.
pub proof fn lemma_has_separator_split(lines: Seq<Seq<char>>, i: int, j: int)
    requires
        0 <= i <= j < lines.len(),
        !is_separator(cells(trim(lines[j]))),
    ensures
        has_separator(lines, i, j + 1) == has_separator(lines, i, j),
    decreases j - i,
{
    if i == j {
        assert(!has_separator(lines, j + 1, j + 1));
    } else {
        lemma_has_separator_split(lines, i + 1, j);
    }
}

} // verus!
