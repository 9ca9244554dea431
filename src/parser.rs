//! The line dispatcher: it classifies each line by its leading characters,
//! hands it to the engine of its block, and runs the final pass over the
//! whole document.
use vstd::prelude::*;

use crate::blockquotes::{lemma_quote_end, parse_blockqoute_internal, quote_html};
use crate::blocks::{
    code_html, fence_exec, is_fence, lemma_table_end, lemma_terminator, parse_codeblock,
    parse_table, parse_title, table_html, terminator, title_html,
};
use crate::escape::{finish, finish_buf};
use crate::html::opening;
use crate::lists::{
    OrderedListMarker, classify, classify_marker, lemma_ol, lemma_ul_end, ol_list, parse_ol,
    parse_ul, ul_html,
};
use crate::spans::{inline_vec, text_html};
use crate::text::{
    chars_of, find_char, find_from, lemma_find_from, push_all, push_str, slice, split,
    split_from, string_of, trim, trimmed, views,
};

verus! {

/// The lines of a text: the pieces between line feeds, where a final line
/// feed ends the last line rather than starting an empty one.
pub open spec fn lines_of(s: Seq<char>) -> Seq<Seq<char>> {
    if s.len() == 0 {
        Seq::empty()
    } else if s.last() == '\n' {
        split_from(s.drop_last(), '\n', 0)
    } else {
        split_from(s, '\n', 0)
    }
}

/// A line break.
pub open spec fn br() -> Seq<char> {
    opening("br/"@, Seq::empty())
}

/// A horizontal rule.
pub open spec fn hr() -> Seq<char> {
    opening("hr"@, Seq::empty())
}

/// Three or more of one character and nothing else.
pub open spec fn is_rule(line: Seq<char>) -> bool {
    line.len() >= 3 && forall|k: int| 0 <= k < line.len() ==> #[trigger] line[k] == line[0]
}

/// The kind of ordered list that a line opens: the text before its first dot
/// is a marker.
pub open spec fn ol_start(raw: Seq<char>) -> Option<OrderedListMarker> {
    match find_from(raw, '.', 0) {
        Some(k) => classify(raw.subrange(0, k)),
        None => None,
    }
}

/// Ordinary text: its inline markup and a space.
pub open spec fn text_line(line: Seq<char>) -> Seq<char> {
    text_html(line) + seq![' ']
}

/// The intermediate HTML of the lines from `i` on; `after_title` holds when
/// the line before was a heading.
pub open spec fn render(lines: Seq<Seq<char>>, i: int, after_title: bool) -> Seq<char>
    decreases lines.len() - i,
{
    if i < 0 || i >= lines.len() {
        Seq::empty()
    } else {
        let raw = lines[i];
        let line = trim(raw);
        proof {
            lemma_ul_end(lines, i + 1);
            lemma_quote_end(lines, i + 1);
            lemma_table_end(lines, i + 1);
            lemma_terminator(lines, i + 1);
        }
        if raw.len() > 0 && raw[0] == '=' {
            title_html(line) + render(lines, i + 1, true)
        } else if line.len() == 0 {
            (if after_title {
                Seq::empty()
            } else {
                br()
            }) + render(lines, i + 1, false)
        } else if raw.len() >= 2 && raw[0] == '-' && raw[1] == ' ' {
            let r = ul_html(lines, i);
            r.0 + render(lines, r.1, false)
        } else if is_rule(line) {
            hr() + render(lines, i + 1, false)
        } else if raw.len() > 0 && raw[0] == '-' {
            text_line(line) + render(lines, i + 1, false)
        } else if raw.len() > 0 && raw[0] == '>' {
            let r = quote_html(lines, i);
            r.0 + render(lines, r.1, false)
        } else if is_fence(line) && terminator(lines, i + 1) is Some {
            let t = terminator(lines, i + 1)->0;
            code_html(lines, i, t) + render(lines, t + 1, false)
        } else if raw.len() > 0 && raw[0] == '|' && line.last() == '|' {
            let r = table_html(lines, i);
            r.0 + render(lines, r.1, false)
        } else if ol_start(raw) is Some {
            proof {
                lemma_ol(lines, i, ol_start(raw)->0, 1);
            }
            let r = ol_list(lines, i, ol_start(raw)->0, 1);
            r.0 + render(lines, r.1, false)
        } else {
            text_line(line) + render(lines, i + 1, false)
        }
    }
}

/// The HTML of a whole document.
pub open spec fn document(s: Seq<char>) -> Seq<char> {
    finish(render(lines_of(s), 0, false))
}

pub fn lines_exec(s: &Vec<char>) -> (r: Vec<Vec<char>>)
    ensures
        views(r@) == lines_of(s@),
{
    if s.len() == 0 {
        let r: Vec<Vec<char>> = Vec::new();
        assert(views(r@) =~= lines_of(s@));
        r
    } else if s[s.len() - 1] == '\n' {
        let body = slice(s, 0, s.len() - 1);
        assert(body@ =~= s@.drop_last());
        split(&body, '\n')
    } else {
        split(s, '\n')
    }
}

fn rule_exec(line: &Vec<char>) -> (r: bool)
    ensures
        r == is_rule(line@),
{
    if line.len() < 3 {
        return false;
    }
    let mut k: usize = 0;
    while k < line.len()
        invariant
            k <= line.len(),
            line.len() >= 3,
            forall|m: int| 0 <= m < k ==> #[trigger] line@[m] == line@[0],
        decreases line.len() - k,
    {
        if line[k] != line[0] {
            return false;
        }
        k = k + 1;
    }
    true
}

fn ol_start_exec(raw: &Vec<char>) -> (r: Option<OrderedListMarker>)
    ensures
        r == ol_start(raw@),
{
    proof {
        lemma_find_from(raw@, '.', 0);
    }
    match find_char(raw, '.') {
        Some(k) => {
            let marker = slice(raw, 0, k);
            classify_marker(&marker)
        },
        None => None,
    }
}

/// The first index at or after `j` that holds a terminator line.
fn terminator_exec(lines: &Vec<Vec<char>>, j: usize) -> (r: Option<usize>)
    ensures
        match r {
            Some(t) => terminator(views(lines@), j as int) == Some(t as int),
            None => terminator(views(lines@), j as int) is None,
        },
{
    let ghost ls = views(lines@);
    let mut k: usize = j;
    if k > lines.len() {
        return None;
    }
    while k < lines.len()
        invariant
            j <= k <= lines.len(),
            ls == views(lines@),
            terminator(ls, k as int) == terminator(ls, j as int),
        decreases lines.len() - k,
    {
        assert(ls[k as int] == lines@[k as int]@);
        let l = &lines[k];
        if l.len() == 3 && l[0] == '<' && l[1] == '/' && l[2] == '>' {
            assert(l@ =~= seq!['<', '/', '>']);
            return Some(k);
        }
        assert(l@ != seq!['<', '/', '>'] ==> !(l@ =~= seq!['<', '/', '>']));
        k = k + 1;
    }
    None
}

fn push_text_line(out: &mut Vec<char>, line: &Vec<char>)
    ensures
        final(out)@ == old(out)@ + text_line(line@),
{
    let ghost o = out@;
    let t = inline_vec(line);
    push_all(out, &t);
    out.push(' ');
    assert(out@ =~= o + text_line(line@));
}

/// One block at line `i`: its intermediate HTML, the line after it, and
/// whether it was a heading.
fn block(lines: &Vec<Vec<char>>, i: usize, after_title: bool) -> (r: (Vec<char>, usize, bool))
    requires
        i < lines.len(),
    ensures
        i < r.1 <= lines.len(),
        render(views(lines@), i as int, after_title) == r.0@ + render(
            views(lines@),
            r.1 as int,
            r.2,
        ),
{
    let ghost ls = views(lines@);
    let raw = &lines[i];
    assert(ls[i as int] == raw@);
    let line = trimmed(raw);
    proof {
        lemma_ul_end(ls, i + 1);
        lemma_quote_end(ls, i + 1);
        lemma_table_end(ls, i + 1);
        lemma_terminator(ls, i + 1);
    }
    let mut out: Vec<char> = Vec::new();
    if raw.len() > 0 && raw[0] == '=' {
        let h = parse_title(&line);
        return (h, i + 1, true);
    }
    if line.len() == 0 {
        if !after_title {
            out.push(crate::escape::PH_LT);
            push_str(&mut out, "br/");
            out.push(crate::escape::PH_GT);
            assert(out@ =~= br());
        }
        assert(out@ =~= (if after_title {
            Seq::empty()
        } else {
            br()
        }));
        return (out, i + 1, false);
    }
    if raw.len() >= 2 && raw[0] == '-' && raw[1] == ' ' {
        let (h, n) = parse_ul(lines, i);
        return (h, n, false);
    }
    if rule_exec(&line) {
        out.push(crate::escape::PH_LT);
        push_str(&mut out, "hr");
        out.push(crate::escape::PH_GT);
        assert(out@ =~= hr());
        return (out, i + 1, false);
    }
    if raw[0] == '-' {
        push_text_line(&mut out, &line);
        return (out, i + 1, false);
    }
    if raw[0] == '>' {
        let (h, n) = parse_blockqoute_internal(lines, i);
        return (h, n, false);
    }
    if fence_exec(&line) {
        match terminator_exec(lines, i + 1) {
            Some(t) => {
                parse_codeblock(lines, i, t, &mut out);
                assert(out@ =~= code_html(ls, i as int, t as int));
                return (out, t + 1, false);
            },
            None => {},
        }
    }
    if raw[0] == '|' && line[line.len() - 1] == '|' {
        let (h, n) = parse_table(lines, i);
        return (h, n, false);
    }
    match ol_start_exec(raw) {
        Some(kind) => {
            proof {
                lemma_ol(ls, i as int, kind, 1);
            }
            let (h, n) = parse_ol(lines, i, kind, 1);
            (h, n, false)
        },
        None => {
            push_text_line(&mut out, &line);
            (out, i + 1, false)
        },
    }
}

/// Transpiles a whole document to an HTML fragment.
pub fn parse(source: &str) -> (r: String)
    ensures
        r@ == document(source@),
{
    let chars = chars_of(source);
    let lines = lines_exec(&chars);
    let ghost ls = views(lines@);
    let mut out: Vec<char> = Vec::new();
    let mut i: usize = 0;
    let mut after_title = false;
    assert(out@ + render(ls, 0, false) =~= render(ls, 0, false));
    while i < lines.len()
        invariant
            i <= lines.len(),
            ls == views(lines@),
            out@ + render(ls, i as int, after_title) == render(ls, 0, false),
        decreases lines.len() - i,
    {
        let ghost o = out@;
        let (h, n, t) = block(&lines, i, after_title);
        push_all(&mut out, &h);
        let ghost rest = render(ls, n as int, t);
        assert(o + (h@ + rest) =~= out@ + rest);
        i = n;
        after_title = t;
    }
    assert(out@ + Seq::<char>::empty() =~= out@);
    let done = finish_buf(&out);
    string_of(&done)
}

/// The block quote that the first line of `source` opens, in intermediate
/// form, and the number of lines it takes.
pub fn parse_blockqoute(source: &str) -> (r: (String, usize))
    ensures
        lines_of(source@).len() == 0 ==> r.0@.len() == 0 && r.1 == 0,
        lines_of(source@).len() > 0 ==> r.0@ == quote_html(lines_of(source@), 0).0 && r.1
            == quote_html(lines_of(source@), 0).1,
{
    let chars = chars_of(source);
    let lines = lines_exec(&chars);
    if lines.len() == 0 {
        return (String::new(), 0);
    }
    let (h, n) = parse_blockqoute_internal(&lines, 0);
    (string_of(&h), n)
}

/// The inline markup of one line, in intermediate form: the tags it
/// generates are written with placeholders, so the result still has to go
/// through the final pass.
pub fn parse_text(line: &str) -> (r: String)
    ensures
        r@ == text_html(line@),
{
    let v = chars_of(line);
    let out = inline_vec(&v);
    string_of(&out)
}

/// The final pass on its own: escapes the `&`, `<`, `>` left in an
/// intermediate buffer and restores every placeholder.
pub fn finish_html(buf: &str) -> (r: String)
    ensures
        r@ == finish(buf@),
{
    let v = chars_of(buf);
    let out = finish_buf(&v);
    string_of(&out)
}

} // verus!
