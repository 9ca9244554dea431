//! Unordered and ordered lists, and the nesting ladder that lists and block
//! quotes share.
use vstd::prelude::*;

use crate::escape::{PH_GT, PH_LT, PH_QUOTE};
use crate::html::{HtmlWriting, closing, element, opening};
use crate::spans::{text_html, inline_vec};
use crate::text::{find_char_from, find_from, lemma_find_from, pos, push_all, push_str, slice, trim, trimmed, views};

verus! {

/// `n` copies of `x`.
pub open spec fn repeat(x: Seq<char>, n: nat) -> Seq<char>
    decreases n,
{
    if n == 0 {
        Seq::empty()
    } else {
        repeat(x, (n - 1) as nat) + x
    }
}

/// The tags that take the ladder from depth `cur` to depth `d`: one `open`
/// per level gained, one `close` per level left.
pub open spec fn ladder(cur: nat, d: nat, open: Seq<char>, close: Seq<char>) -> Seq<char> {
    if d > cur {
        repeat(open, (d - cur) as nat)
    } else {
        repeat(close, (cur - d) as nat)
    }
}

pub fn push_repeat(out: &mut Vec<char>, x: &Vec<char>, n: usize)
    ensures
        final(out)@ == old(out)@ + repeat(x@, n as nat),
{
    let ghost o = out@;
    let mut i: usize = 0;
    while i < n
        invariant
            i <= n,
            out@ == o + repeat(x@, i as nat),
        decreases n - i,
    {
        push_all(out, x);
        assert(out@ =~= o + repeat(x@, (i + 1) as nat));
        i = i + 1;
    }
}

pub fn push_ladder(out: &mut Vec<char>, cur: usize, d: usize, open: &Vec<char>, close: &Vec<char>)
    ensures
        final(out)@ == old(out)@ + ladder(cur as nat, d as nat, open@, close@),
{
    if d > cur {
        push_repeat(out, open, d - cur);
    } else {
        push_repeat(out, close, cur - d);
    }
}

/// `<tag>` as a vector.
pub fn open_tag(tag: &str) -> (r: Vec<char>)
    ensures
        r@ == opening(tag@, Seq::empty()),
{
    let mut r: Vec<char> = Vec::new();
    let no_attrs: [(&str, &str); 0] = [];
    r.write_opening_tag(tag, &no_attrs);
    assert(no_attrs@.len() == 0);
    assert(r@ =~= opening(tag@, Seq::empty()));
    r
}

/// `</tag>` as a vector.
pub fn close_tag(tag: &str) -> (r: Vec<char>)
    ensures
        r@ == closing(tag@),
{
    let mut r: Vec<char> = Vec::new();
    r.write_closing_tag(tag);
    assert(r@ =~= closing(tag@));
    r
}

/// ` name="value"` in intermediate form.
pub open spec fn attr(name: Seq<char>, value: Seq<char>) -> Seq<char> {
    seq![' '] + name + seq!['=', PH_QUOTE] + value + seq![PH_QUOTE]
}

pub fn push_attr(out: &mut Vec<char>, name: &str, value: &str)
    ensures
        final(out)@ == old(out)@ + attr(name@, value@),
{
    let ghost o = out@;
    out.push(' ');
    push_str(out, name);
    out.push('=');
    out.push(PH_QUOTE);
    push_str(out, value);
    out.push(PH_QUOTE);
    assert(out@ =~= o + attr(name@, value@));
}

/// Appends `<tag>contents</tag>`.
pub fn push_element(out: &mut Vec<char>, tag: &str, contents: &Vec<char>)
    ensures
        final(out)@ == old(out)@ + element(tag@, Seq::empty(), contents@),
{
    let ghost o = out@;
    let a = open_tag(tag);
    push_all(out, &a);
    push_all(out, contents);
    let b = close_tag(tag);
    push_all(out, &b);
    assert(out@ =~= o + element(tag@, Seq::empty(), contents@));
}

/// Number of leading characters of `s` that are `-`, or also ` ` where
/// `spaces` holds.
pub open spec fn lead_marks(s: Seq<char>, spaces: bool) -> nat
    decreases s.len(),
{
    if s.len() > 0 && (s[0] == '-' || (spaces && s[0] == ' ')) {
        1 + lead_marks(s.drop_first(), spaces)
    } else {
        0
    }
}

pub proof fn lemma_lead_marks(s: Seq<char>, spaces: bool)
    ensures
        lead_marks(s, spaces) <= s.len(),
        forall|i: int|
            0 <= i < lead_marks(s, spaces) ==> (#[trigger] s[i] == '-' || (spaces && s[i] == ' ')),
        lead_marks(s, spaces) < s.len() ==> !(s[lead_marks(s, spaces) as int] == '-' || (spaces
            && s[lead_marks(s, spaces) as int] == ' ')),
    decreases s.len(),
{
    if s.len() > 0 && (s[0] == '-' || (spaces && s[0] == ' ')) {
        lemma_lead_marks(s.drop_first(), spaces);
        assert forall|i: int| 0 <= i < lead_marks(s, spaces) implies (#[trigger] s[i] == '-' || (
        spaces && s[i] == ' ')) by {
            if i > 0 {
                assert(s[i] == s.drop_first()[i - 1]);
            }
        }
    }
}

fn lead_marks_exec(s: &Vec<char>, spaces: bool) -> (r: usize)
    ensures
        r == lead_marks(s@, spaces),
{
    let mut i: usize = 0;
    assert(s@.subrange(0, s.len() as int) =~= s@);
    while i < s.len() && (s[i] == '-' || (spaces && s[i] == ' '))
        invariant
            i <= s.len(),
            lead_marks(s@, spaces) == i + lead_marks(s@.subrange(i as int, s.len() as int), spaces),
        decreases s.len() - i,
    {
        let ghost t = s@.subrange(i as int, s.len() as int);
        assert(t.drop_first() =~= s@.subrange(i + 1, s.len() as int));
        assert(t[0] == s@[i as int]);
        i = i + 1;
    }
    proof {
        let t = s@.subrange(i as int, s.len() as int);
        if i < s.len() {
            assert(t[0] == s@[i as int]);
        }
    }
    i
}

/// Number of occurrences of `c` in `s`.
pub open spec fn count_of(s: Seq<char>, c: char) -> nat
    decreases s.len(),
{
    if s.len() == 0 {
        0
    } else {
        count_of(s.drop_last(), c) + if s.last() == c {
            1nat
        } else {
            0nat
        }
    }
}

pub fn count_exec(s: &Vec<char>, c: char, hi: usize) -> (r: usize)
    requires
        hi <= s.len(),
    ensures
        r == count_of(s@.subrange(0, hi as int), c),
{
    let mut n: usize = 0;
    let mut i: usize = 0;
    while i < hi
        invariant
            i <= hi <= s.len(),
            n == count_of(s@.subrange(0, i as int), c),
            n <= i,
        decreases hi - i,
    {
        assert(s@.subrange(0, i + 1).drop_last() =~= s@.subrange(0, i as int));
        if s[i] == c {
            n = n + 1;
        }
        i = i + 1;
    }
    n
}

/// A line of an unordered list: a run of `-` and then a space.
pub open spec fn is_ul_line(s: Seq<char>) -> bool {
    let n = lead_marks(s, false);
    n >= 1 && n < s.len() && s[n as int] == ' '
}

/// The nesting depth of a list line: the `-` before its text.
pub open spec fn ul_depth(s: Seq<char>) -> nat {
    count_of(s.subrange(0, lead_marks(s, true) as int), '-')
}

/// The text of a list line after its markers.
pub open spec fn ul_text(s: Seq<char>) -> Seq<char> {
    s.subrange(lead_marks(s, true) as int, s.len() as int)
}

/// First index at or after `j` that is not a list line.
pub open spec fn ul_end(lines: Seq<Seq<char>>, j: int) -> int
    decreases lines.len() - j,
{
    if j < 0 || j >= lines.len() || !is_ul_line(lines[j]) {
        j
    } else {
        ul_end(lines, j + 1)
    }
}

pub proof fn lemma_ul_end(lines: Seq<Seq<char>>, j: int)
    requires
        0 <= j,
    ensures
        j <= ul_end(lines, j),
        j <= lines.len() ==> ul_end(lines, j) <= lines.len(),
    decreases lines.len() - j,
{
    if j < lines.len() && is_ul_line(lines[j]) {
        lemma_ul_end(lines, j + 1);
    }
}

/// The checkbox states a list item may start with.
pub open spec fn checkbox(li: Seq<char>, mark: char) -> bool {
    li.len() >= 3 && li[0] == '[' && li[1] == mark && li[2] == ']'
}

/// The HTML of one list item's text: a checkbox item for `[ ]`, `[-]`,
/// `[x]`, otherwise its inline markup.
pub open spec fn li_html(raw: Seq<char>) -> Seq<char> {
    let li = trim(raw);
    let rest = li.subrange(3, li.len() as int);
    let start = seq![PH_LT] + "input"@ + attr("type"@, "checkbox"@);
    let end = seq![PH_GT] + text_html(rest) + closing("input"@);
    if checkbox(li, ' ') {
        start + attr("class"@, "fxg-clitem"@) + end
    } else if checkbox(li, '-') {
        start + attr("class"@, "fxg-indeterminate fxg-clitem"@) + end
    } else if checkbox(li, 'x') {
        start + attr("class"@, "fxg-indeterminate fxg-clitem"@) + attr("checked"@, ""@) + end
    } else {
        text_html(li)
    }
}

/// The items from line `j` up to `end`, with the ladder at depth `cur`.
pub open spec fn ul_items(lines: Seq<Seq<char>>, j: int, end: int, cur: nat) -> Seq<char>
    decreases end - j,
{
    if j < 0 || j >= end {
        repeat(closing("ul"@), cur)
    } else {
        let d = ul_depth(lines[j]);
        ladder(cur, d, opening("ul"@, Seq::empty()), closing("ul"@)) + element(
            "li"@,
            Seq::empty(),
            li_html(ul_text(lines[j])),
        ) + ul_items(lines, j + 1, end, d)
    }
}

/// An unordered list starting at line `i`: its HTML and the first line after
/// it.
pub open spec fn ul_html(lines: Seq<Seq<char>>, i: int) -> (Seq<char>, int) {
    let end = ul_end(lines, i + 1);
    (ul_items(lines, i, end, 0), end)
}

pub(crate) fn parse_li(rli: &Vec<char>) -> (r: Vec<char>)
    ensures
        r@ == li_html(rli@),
{
    let li = trimmed(rli);
    let ghost l = li@;
    if li.len() >= 3 && li[0] == '[' && (li[1] == ' ' || li[1] == '-' || li[1] == 'x') && li[2]
        == ']' {
        let mut out: Vec<char> = Vec::new();
        out.push(PH_LT);
        push_str(&mut out, "input");
        push_attr(&mut out, "type", "checkbox");
        if li[1] == ' ' {
            push_attr(&mut out, "class", "fxg-clitem");
        } else if li[1] == '-' {
            push_attr(&mut out, "class", "fxg-indeterminate fxg-clitem");
        } else {
            push_attr(&mut out, "class", "fxg-indeterminate fxg-clitem");
            push_attr(&mut out, "checked", "");
        }
        let ghost head = out@;
        out.push(PH_GT);
        let rest = slice(&li, 3, li.len());
        let body = inline_vec(&rest);
        push_all(&mut out, &body);
        let close = close_tag("input");
        push_all(&mut out, &close);
        proof {
            let end = seq![PH_GT] + text_html(l.subrange(3, l.len() as int)) + closing("input"@);
            assert(out@ =~= head + end);
        }
        out
    } else {
        inline_vec(&li)
    }
}

pub(crate) fn parse_ul(lines: &Vec<Vec<char>>, i: usize) -> (r: (Vec<char>, usize))
    requires
        i < lines.len(),
    ensures
        r.0@ == ul_html(views(lines@), i as int).0,
        r.1 == ul_html(views(lines@), i as int).1,
        i < r.1 <= lines.len(),
{
    let ghost ls = views(lines@);
    let mut end: usize = i + 1;
    proof {
        lemma_ul_end(ls, i + 1);
    }
    while end < lines.len() && lead_marks_exec(&lines[end], false) >= 1 && lead_marks_exec(
        &lines[end],
        false,
    ) < lines[end].len() && lines[end][lead_marks_exec(&lines[end], false)] == ' '
        invariant
            i < end <= lines.len(),
            ul_end(ls, end as int) == ul_end(ls, i + 1),
            ls == views(lines@),
        decreases lines.len() - end,
    {
        assert(ls[end as int] == lines@[end as int]@);
        end = end + 1;
    }
    proof {
        if end < lines.len() {
            assert(ls[end as int] == lines@[end as int]@);
        }
    }
    let open = open_tag("ul");
    let close = close_tag("ul");
    let mut out: Vec<char> = Vec::new();
    let mut cur: usize = 0;
    let mut j: usize = i;
    assert(out@ + ul_items(ls, i as int, end as int, 0) =~= ul_items(ls, i as int, end as int, 0));
    while j < end
        invariant
            i <= j <= end <= lines.len(),
            ls == views(lines@),
            open@ == opening("ul"@, Seq::empty()),
            close@ == closing("ul"@),
            out@ + ul_items(ls, j as int, end as int, cur as nat) == ul_items(
                ls,
                i as int,
                end as int,
                0,
            ),
        decreases end - j,
    {
        let line = &lines[j];
        assert(ls[j as int] == line@);
        let pre = lead_marks_exec(line, true);
        proof {
            lemma_lead_marks(line@, true);
        }
        let d = count_exec(line, '-', pre);
        let ghost o = out@;
        push_ladder(&mut out, cur, d, &open, &close);
        let text = slice(line, pre, line.len());
        let item = parse_li(&text);
        push_element(&mut out, "li", &item);
        let ghost rest = ul_items(ls, j + 1, end as int, d as nat);
        assert(o + (ladder(cur as nat, d as nat, open@, close@) + element(
            "li"@,
            Seq::empty(),
            li_html(ul_text(ls[j as int])),
        ) + rest) =~= out@ + rest);
        cur = d;
        j = j + 1;
    }
    let ghost o = out@;
    push_repeat(&mut out, &close, cur);
    assert(o + ul_items(ls, j as int, end as int, cur as nat) == out@);
    (out, end)
}

/// The numbering systems of ordered lists.
#[derive(Clone, Copy, Debug, PartialEq, Eq, Structural)]
pub enum OrderedListMarker {
    Numerical,
    LowercaseLetters,
    UppercaseLetters,
    LowercaseNumerals,
    UppercaseNumerals,
}

impl OrderedListMarker {
    /// The characters a marker of this kind is made of.
    pub open spec fn chars(self) -> Seq<char> {
        match self {
            OrderedListMarker::Numerical => seq!['0', '1', '2', '3', '4', '5', '6', '7', '8', '9'],
            OrderedListMarker::LowercaseLetters => seq![
                'a', 'b', 'c', 'd', 'e', 'f', 'g', 'h', 'i', 'j', 'k', 'l', 'm',
                'n', 'o', 'p', 'q', 'r', 's', 't', 'u', 'v', 'w', 'x', 'y', 'z',
            ],
            OrderedListMarker::UppercaseLetters => seq![
                'A', 'B', 'C', 'D', 'E', 'F', 'G', 'H', 'I', 'J', 'K', 'L', 'M',
                'N', 'O', 'P', 'Q', 'R', 'S', 'T', 'U', 'V', 'W', 'X', 'Y', 'Z',
            ],
            OrderedListMarker::LowercaseNumerals => seq!['i', 'v', 'x', 'l', 'd', 'm'],
            OrderedListMarker::UppercaseNumerals => seq!['I', 'V', 'X', 'L', 'D', 'M'],
        }
    }

    /// The value of the `type` attribute of `<ol>` for this kind.
    pub open spec fn type_attr(self) -> Seq<char> {
        match self {
            OrderedListMarker::LowercaseLetters => "a"@,
            OrderedListMarker::Numerical => "1"@,
            OrderedListMarker::UppercaseLetters => "A"@,
            OrderedListMarker::LowercaseNumerals => "i"@,
            OrderedListMarker::UppercaseNumerals => "I"@,
        }
    }

    pub fn charset(&self) -> (r: Vec<char>)
        ensures
            r@ == self.chars(),
    {
        let r = match self {
            OrderedListMarker::Numerical => vec!['0', '1', '2', '3', '4', '5', '6', '7', '8', '9'],
            OrderedListMarker::LowercaseLetters => vec![
                'a', 'b', 'c', 'd', 'e', 'f', 'g', 'h', 'i', 'j', 'k', 'l', 'm',
                'n', 'o', 'p', 'q', 'r', 's', 't', 'u', 'v', 'w', 'x', 'y', 'z',
            ],
            OrderedListMarker::UppercaseLetters => vec![
                'A', 'B', 'C', 'D', 'E', 'F', 'G', 'H', 'I', 'J', 'K', 'L', 'M',
                'N', 'O', 'P', 'Q', 'R', 'S', 'T', 'U', 'V', 'W', 'X', 'Y', 'Z',
            ],
            OrderedListMarker::LowercaseNumerals => vec!['i', 'v', 'x', 'l', 'd', 'm'],
            OrderedListMarker::UppercaseNumerals => vec!['I', 'V', 'X', 'L', 'D', 'M'],
        };
        assert(r@ =~= self.chars());
        r
    }

    pub fn html_type(&self) -> (r: &'static str)
        ensures
            r@ == self.type_attr(),
    {
        match self {
            OrderedListMarker::LowercaseLetters => "a",
            OrderedListMarker::Numerical => "1",
            OrderedListMarker::UppercaseLetters => "A",
            OrderedListMarker::LowercaseNumerals => "i",
            OrderedListMarker::UppercaseNumerals => "I",
        }
    }
}

/// Every character of `s` is in `set`.
pub open spec fn consists(s: Seq<char>, set: Seq<char>) -> bool {
    forall|i: int| 0 <= i < s.len() ==> set.contains(#[trigger] s[i])
}

fn member(c: char, set: &Vec<char>) -> (r: bool)
    ensures
        r == set@.contains(c),
{
    let mut i: usize = 0;
    while i < set.len()
        invariant
            i <= set.len(),
            forall|k: int| 0 <= k < i ==> set@[k] != c,
        decreases set.len() - i,
    {
        if set[i] == c {
            return true;
        }
        i = i + 1;
    }
    false
}

pub fn string_consists_of(input: &Vec<char>, set: &Vec<char>) -> (r: bool)
    ensures
        r == consists(input@, set@),
{
    let mut i: usize = 0;
    while i < input.len()
        invariant
            i <= input.len(),
            forall|k: int| 0 <= k < i ==> set@.contains(#[trigger] input@[k]),
        decreases input.len() - i,
    {
        if !member(input[i], set) {
            return false;
        }
        i = i + 1;
    }
    true
}

/// The kind of a marker, trying the kinds in priority order: numbers, then
/// roman numerals, then letters, lowercase first.
pub open spec fn classify(s: Seq<char>) -> Option<OrderedListMarker> {
    if consists(s, OrderedListMarker::Numerical.chars()) {
        Some(OrderedListMarker::Numerical)
    } else if consists(s, OrderedListMarker::LowercaseNumerals.chars()) {
        Some(OrderedListMarker::LowercaseNumerals)
    } else if consists(s, OrderedListMarker::UppercaseNumerals.chars()) {
        Some(OrderedListMarker::UppercaseNumerals)
    } else if consists(s, OrderedListMarker::LowercaseLetters.chars()) {
        Some(OrderedListMarker::LowercaseLetters)
    } else if consists(s, OrderedListMarker::UppercaseLetters.chars()) {
        Some(OrderedListMarker::UppercaseLetters)
    } else {
        None
    }
}

pub fn classify_marker(s: &Vec<char>) -> (r: Option<OrderedListMarker>)
    ensures
        r == classify(s@),
{
    if string_consists_of(s, &OrderedListMarker::Numerical.charset()) {
        Some(OrderedListMarker::Numerical)
    } else if string_consists_of(s, &OrderedListMarker::LowercaseNumerals.charset()) {
        Some(OrderedListMarker::LowercaseNumerals)
    } else if string_consists_of(s, &OrderedListMarker::UppercaseNumerals.charset()) {
        Some(OrderedListMarker::UppercaseNumerals)
    } else if string_consists_of(s, &OrderedListMarker::LowercaseLetters.charset()) {
        Some(OrderedListMarker::LowercaseLetters)
    } else if string_consists_of(s, &OrderedListMarker::UppercaseLetters.charset()) {
        Some(OrderedListMarker::UppercaseLetters)
    } else {
        None
    }
}

/// The position just after the `n`-th `.` of `s` (`Some(0)` for `n == 0`).
pub open spec fn dot_after(s: Seq<char>, n: nat) -> Option<int>
    decreases n,
{
    if n == 0 {
        Some(0)
    } else {
        match dot_after(s, (n - 1) as nat) {
            Some(st) => match find_from(s, '.', st) {
                Some(k) => Some(k + 1),
                None => None,
            },
            None => None,
        }
    }
}

pub proof fn lemma_dot_after(s: Seq<char>, n: nat)
    ensures
        dot_after(s, n) matches Some(b) ==> n <= b <= s.len(),
        n >= 1 && dot_after(s, n) is Some ==> dot_after(s, (n - 1) as nat) is Some,
        n >= 1 && dot_after(s, n) is Some ==> dot_after(s, (n - 1) as nat)->0 < dot_after(
            s,
            n,
        )->0,
    decreases n,
{
    if n > 0 {
        lemma_dot_after(s, (n - 1) as nat);
        if let Some(st) = dot_after(s, (n - 1) as nat) {
            lemma_find_from(s, '.', st);
        }
    }
}

/// The marker of a line at depth `d`: the text between its `d-1`-th and
/// `d`-th dot.
pub open spec fn marker_at(s: Seq<char>, d: nat) -> Option<Seq<char>> {
    match (dot_after(s, (d - 1) as nat), dot_after(s, d)) {
        (Some(a), Some(b)) => Some(s.subrange(a, b - 1)),
        _ => None,
    }
}

/// A line that goes on a list of kind `kind` at depth `d`.
pub open spec fn continues(s: Seq<char>, kind: OrderedListMarker, d: nat) -> bool {
    match marker_at(s, d) {
        Some(m) => consists(m, kind.chars()),
        None => false,
    }
}

/// The text of a line after its marker at depth `d`.
pub open spec fn item_after(s: Seq<char>, d: nat) -> Seq<char> {
    match dot_after(s, d) {
        Some(b) => s.subrange(b, s.len() as int),
        None => s,
    }
}

/// The kind of the list nested at depth `d + 1` that a line's text opens, if
/// the text up to its next dot is a marker.
pub open spec fn nested_kind(s: Seq<char>, d: nat) -> Option<OrderedListMarker> {
    match marker_at(s, d + 1) {
        Some(m) => classify(trim(m)),
        None => None,
    }
}

pub open spec fn ol_open(kind: OrderedListMarker) -> Seq<char> {
    opening("ol"@, attr("type"@, kind.type_attr()))
}

pub open spec fn li(x: Seq<char>) -> Seq<char> {
    element("li"@, Seq::empty(), x)
}

/// An ordered list of kind `kind` at depth `d` whose first item is line `i`:
/// its HTML and the first line after it.
pub open spec fn ol_list(lines: Seq<Seq<char>>, i: int, kind: OrderedListMarker, d: nat) -> (
    Seq<char>,
    int,
)
    decreases lines.len() - i, 1int,
{
    if i < 0 || i >= lines.len() {
        (Seq::empty(), i + 1)
    } else {
        let first = li(text_html(trim(item_after(lines[i], d))));
        let r = ol_rest(lines, i + 1, kind, d);
        (ol_open(kind) + first + r.0 + closing("ol"@), r.1)
    }
}

/// The items of a list of kind `kind` at depth `d` from line `j` on.
pub open spec fn ol_rest(lines: Seq<Seq<char>>, j: int, kind: OrderedListMarker, d: nat) -> (
    Seq<char>,
    int,
)
    decreases lines.len() - j, 2int,
{
    if j < 0 || j >= lines.len() || !continues(lines[j], kind, d) {
        (Seq::empty(), j)
    } else {
        match nested_kind(lines[j], d) {
            Some(k2) => {
                let n = ol_list(lines, j, k2, d + 1);
                if n.1 <= j || n.1 > lines.len() {
                    (Seq::empty(), j)
                } else {
                    let r = ol_rest(lines, n.1, kind, d);
                    (li(n.0) + r.0, r.1)
                }
            },
            None => {
                let r = ol_rest(lines, j + 1, kind, d);
                (li(text_html(trim(item_after(lines[j], d)))) + r.0, r.1)
            },
        }
    }
}

pub proof fn lemma_ol(lines: Seq<Seq<char>>, i: int, kind: OrderedListMarker, d: nat)
    requires
        0 <= i < lines.len(),
    ensures
        i < ol_list(lines, i, kind, d).1 <= lines.len(),
    decreases lines.len() - i, 1int,
{
    lemma_ol_rest(lines, i + 1, kind, d);
}

pub proof fn lemma_ol_rest(lines: Seq<Seq<char>>, j: int, kind: OrderedListMarker, d: nat)
    requires
        0 <= j <= lines.len(),
    ensures
        j <= ol_rest(lines, j, kind, d).1 <= lines.len(),
    decreases lines.len() - j, 2int,
{
    if j < lines.len() && continues(lines[j], kind, d) {
        match nested_kind(lines[j], d) {
            Some(k2) => {
                lemma_ol(lines, j, k2, d + 1);
                let n = ol_list(lines, j, k2, d + 1);
                lemma_ol_rest(lines, n.1, kind, d);
            },
            None => {
                lemma_ol_rest(lines, j + 1, kind, d);
            },
        }
    }
}

/// Position just after the `n`-th dot of `s`.
fn dot_after_exec(s: &Vec<char>, n: usize) -> (r: Option<usize>)
    ensures
        pos(r) == dot_after(s@, n as nat),
{
    let mut st: usize = 0;
    let mut m: usize = 0;
    while m < n
        invariant
            m <= n,
            dot_after(s@, m as nat) == Some(st as int),
            st <= s.len(),
        decreases n - m,
    {
        proof {
            lemma_find_from(s@, '.', st as int);
        }
        match find_char_from(s, '.', st) {
            Some(k) => {
                st = k + 1;
            },
            None => {
                proof {
                    lemma_none_after(s@, (m + 1) as nat, n as nat);
                }
                return None;
            },
        }
        m = m + 1;
    }
    Some(st)
}

proof fn lemma_none_after(s: Seq<char>, m: nat, n: nat)
    requires
        m <= n,
        dot_after(s, m) is None,
    ensures
        dot_after(s, n) is None,
    decreases n - m,
{
    if m < n {
        lemma_none_after(s, m + 1, n);
    }
}

fn marker_at_exec(s: &Vec<char>, d: usize) -> (r: Option<Vec<char>>)
    requires
        d >= 1,
    ensures
        match r {
            Some(v) => marker_at(s@, d as nat) == Some(v@),
            None => marker_at(s@, d as nat) is None,
        },
{
    proof {
        lemma_dot_after(s@, d as nat);
    }
    match dot_after_exec(s, d) {
        None => None,
        Some(b) => match dot_after_exec(s, d - 1) {
            Some(a) => Some(slice(s, a, b - 1)),
            None => None,
        },
    }
}

fn item_after_exec(s: &Vec<char>, d: usize) -> (r: Vec<char>)
    ensures
        r@ == item_after(s@, d as nat),
{
    proof {
        lemma_dot_after(s@, d as nat);
    }
    match dot_after_exec(s, d) {
        Some(b) => slice(s, b, s.len()),
        None => slice(s, 0, s.len()),
    }
}

fn li_of(out: &mut Vec<char>, x: &Vec<char>)
    ensures
        final(out)@ == old(out)@ + li(x@),
{
    push_element(out, "li", x);
}

/// One step of a list of kind `kind` at depth `d` at line `j`: `None` where
/// the list ends there, else the HTML of the item and the line after it.
fn ol_step(lines: &Vec<Vec<char>>, j: usize, kind: OrderedListMarker, d: usize) -> (r: Option<
    (Vec<char>, usize),
>)
    requires
        j < lines.len(),
        d >= 1,
    ensures
        r is None ==> ol_rest(views(lines@), j as int, kind, d as nat) == (Seq::<char>::empty(), j as int),
        r matches Some(p) ==> j < p.1 <= lines.len() && ol_rest(views(lines@), j as int, kind, d as nat).0
            == p.0@ + ol_rest(views(lines@), p.1 as int, kind, d as nat).0 && ol_rest(
            views(lines@),
            j as int,
            kind,
            d as nat,
        ).1 == ol_rest(views(lines@), p.1 as int, kind, d as nat).1,
    decreases lines.len() - j, 1int,
{
    let ghost ls = views(lines@);
    let line = &lines[j];
    assert(ls[j as int] == line@);
    let charset = kind.charset();
    let goes_on = match marker_at_exec(line, d) {
        Some(m) => string_consists_of(&m, &charset),
        None => false,
    };
    if !goes_on {
        return None;
    }
    proof {
        lemma_dot_after(line@, d as nat);
        lemma_dot_after(line@, (d + 1) as nat);
    }
    let nested = if d < line.len() {
        match marker_at_exec(line, d + 1) {
            Some(m) => {
                let t = trimmed(&m);
                classify_marker(&t)
            },
            None => None,
        }
    } else {
        None
    };
    assert(nested == nested_kind(line@, d as nat));
    let mut piece: Vec<char> = Vec::new();
    match nested {
        Some(k2) => {
            proof {
                lemma_ol(ls, j as int, k2, (d + 1) as nat);
            }
            let (h, n) = parse_ol(lines, j, k2, d + 1);
            li_of(&mut piece, &h);
            assert(piece@ =~= Seq::<char>::empty() + li(h@));
            Some((piece, n))
        },
        None => {
            let text = item_after_exec(line, d);
            let t = trimmed(&text);
            let body = inline_vec(&t);
            li_of(&mut piece, &body);
            assert(piece@ =~= Seq::<char>::empty() + li(body@));
            Some((piece, j + 1))
        },
    }
}

pub(crate) fn parse_ol(lines: &Vec<Vec<char>>, i: usize, kind: OrderedListMarker, d: usize) -> (r: (
    Vec<char>,
    usize,
))
    requires
        i < lines.len(),
        d >= 1,
    ensures
        r.0@ == ol_list(views(lines@), i as int, kind, d as nat).0,
        r.1 == ol_list(views(lines@), i as int, kind, d as nat).1,
    decreases lines.len() - i, 0int,
{
    let ghost ls = views(lines@);
    assert(ls[i as int] == lines@[i as int]@);
    let first_text = item_after_exec(&lines[i], d);
    let first_trim = trimmed(&first_text);
    let first = inline_vec(&first_trim);
    let mut acc: Vec<char> = Vec::new();
    let mut j: usize = i + 1;
    assert(acc@ + ol_rest(ls, j as int, kind, d as nat).0 =~= ol_rest(
        ls,
        i + 1,
        kind,
        d as nat,
    ).0);
    loop
        invariant
            i < j <= lines.len(),
            d >= 1,
            ls == views(lines@),
            acc@ + ol_rest(ls, j as int, kind, d as nat).0 == ol_rest(ls, i + 1, kind, d as nat).0,
            ol_rest(ls, j as int, kind, d as nat).1 == ol_rest(ls, i + 1, kind, d as nat).1,
        ensures
            i < j <= lines.len(),
            acc@ + ol_rest(ls, j as int, kind, d as nat).0 == ol_rest(ls, i + 1, kind, d as nat).0,
            ol_rest(ls, j as int, kind, d as nat).1 == ol_rest(ls, i + 1, kind, d as nat).1,
            ol_rest(ls, j as int, kind, d as nat) == (Seq::<char>::empty(), j as int),
        decreases lines.len() - j,
    {
        if j >= lines.len() {
            break;
        }
        match ol_step(lines, j, kind, d) {
            None => {
                break;
            },
            Some((piece, n)) => {
                let ghost o = acc@;
                push_all(&mut acc, &piece);
                let ghost r = ol_rest(ls, n as int, kind, d as nat);
                assert(o + (piece@ + r.0) =~= acc@ + r.0);
                j = n;
            },
        }
    }
    let mut out: Vec<char> = Vec::new();
    out.push(PH_LT);
    push_str(&mut out, "ol");
    push_attr(&mut out, "type", kind.html_type());
    out.push(PH_GT);
    assert(out@ =~= ol_open(kind));
    li_of(&mut out, &first);
    push_all(&mut out, &acc);
    let close = close_tag("ol");
    push_all(&mut out, &close);
    proof {
        assert(ol_rest(ls, j as int, kind, d as nat).0 =~= Seq::<char>::empty());
        assert(acc@ =~= ol_rest(ls, i + 1, kind, d as nat).0);
        assert(out@ =~= ol_open(kind) + li(first@) + ol_rest(ls, i + 1, kind, d as nat).0
            + closing("ol"@));
    }
    (out, j)
}

} // verus!
