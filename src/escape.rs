//! Placeholders and the final escaping pass.
//!
//! While a document is transpiled, every markup-significant character that
//! the transpiler itself generates (the `<` of a tag it writes, the quotes of
//! an attribute) is written as a private-use placeholder. The one exception
//! is the code-span terminator placeholder, which marks a `</>` that the
//! author escaped inside a code span. Once the whole document is in this
//! intermediate form, one pass escapes the `&`, `<` and `>` that are left
//! (they can only come from the author's text) and restores every
//! placeholder.
use vstd::prelude::*;

verus! {

/// Stands for `//`.
pub const PH_SLASHES: char = '\u{E001}';

/// Stands for a generated `>`.
pub const PH_GT: char = '\u{E002}';

/// Stands for a generated `<`.
pub const PH_LT: char = '\u{E003}';

/// Stands for `__`.
pub const PH_UNDERSCORES: char = '\u{E004}';

/// Stands for `!!`.
pub const PH_BANGS: char = '\u{E005}';

/// Marks a code-span terminator `</>` that the author escaped; it is shown
/// as text.
pub const PH_CODE_END: char = '\u{E006}';

/// Stands for a generated `"`.
pub const PH_QUOTE: char = '\u{E007}';

/// Stands for a backslash.
pub const PH_BACKSLASH: char = '\u{E008}';

/// What the final pass writes for one character of the intermediate form.
pub open spec fn emit(c: char) -> Seq<char> {
    if c == '&' {
        seq!['&', 'a', 'm', 'p', ';']
    } else if c == '<' {
        seq!['&', 'l', 't', ';']
    } else if c == '>' {
        seq!['&', 'g', 't', ';']
    } else if c == PH_SLASHES {
        seq!['/', '/']
    } else if c == PH_GT {
        seq!['>']
    } else if c == PH_LT {
        seq!['<']
    } else if c == PH_UNDERSCORES {
        seq!['_', '_']
    } else if c == PH_BANGS {
        seq!['!', '!']
    } else if c == PH_CODE_END {
        seq!['&', 'l', 't', ';', '/', '&', 'g', 't', ';']
    } else if c == PH_QUOTE {
        seq!['"']
    } else if c == PH_BACKSLASH {
        seq!['\\']
    } else {
        seq![c]
    }
}

/// The final pass over a whole intermediate buffer.
pub open spec fn finish(s: Seq<char>) -> Seq<char>
    decreases s.len(),
{
    if s.len() == 0 {
        Seq::empty()
    } else {
        finish(s.drop_last()) + emit(s.last())
    }
}

pub proof fn lemma_finish_concat(a: Seq<char>, b: Seq<char>)
    ensures
        finish(a + b) == finish(a) + finish(b),
    decreases b.len(),
{
    if b.len() == 0 {
        assert(a + b =~= a);
        assert(finish(a) + finish(b) =~= finish(a));
    } else {
        lemma_finish_concat(a, b.drop_last());
        assert((a + b).drop_last() =~= a + b.drop_last());
        assert((a + b).last() == b.last());
        assert(finish(a + b) =~= finish(a) + finish(b));
    }
}

pub proof fn lemma_finish_char(c: char)
    ensures
        finish(seq![c]) == emit(c),
{
    assert(seq![c].drop_last() =~= Seq::<char>::empty());
    assert(finish(Seq::<char>::empty()) == Seq::<char>::empty());
    assert(Seq::<char>::empty() + emit(c) =~= emit(c));
}

fn push_emit(out: &mut Vec<char>, c: char)
    ensures
        final(out)@ == old(out)@ + emit(c),
{
    let ghost o = out@;
    if c == '&' {
        out.push('&');
        out.push('a');
        out.push('m');
        out.push('p');
        out.push(';');
    } else if c == '<' {
        out.push('&');
        out.push('l');
        out.push('t');
        out.push(';');
    } else if c == '>' {
        out.push('&');
        out.push('g');
        out.push('t');
        out.push(';');
    } else if c == PH_SLASHES {
        out.push('/');
        out.push('/');
    } else if c == PH_GT {
        out.push('>');
    } else if c == PH_LT {
        out.push('<');
    } else if c == PH_UNDERSCORES {
        out.push('_');
        out.push('_');
    } else if c == PH_BANGS {
        out.push('!');
        out.push('!');
    } else if c == PH_CODE_END {
        out.push('&');
        out.push('l');
        out.push('t');
        out.push(';');
        out.push('/');
        out.push('&');
        out.push('g');
        out.push('t');
        out.push(';');
    } else if c == PH_QUOTE {
        out.push('"');
    } else if c == PH_BACKSLASH {
        out.push('\\');
    } else {
        out.push(c);
    }
    assert(out@ =~= o + emit(c));
}

/// Escapes the author's `&`, `<`, `>` and restores every placeholder.
pub fn finish_buf(s: &Vec<char>) -> (r: Vec<char>)
    ensures
        r@ == finish(s@),
{
    let mut out: Vec<char> = Vec::new();
    let mut i: usize = 0;
    while i < s.len()
        invariant
            i <= s.len(),
            out@ == finish(s@.subrange(0, i as int)),
        decreases s.len() - i,
    {
        proof {
            assert(s@.subrange(0, i + 1).drop_last() =~= s@.subrange(0, i as int));
        }
        push_emit(&mut out, s[i]);
        i = i + 1;
    }
    assert(s@.subrange(0, s.len() as int) =~= s@);
    out
}

} // verus!
