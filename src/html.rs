//! Writing HTML tags into the intermediate buffer, with placeholders for the
//! characters that make up the tag itself.
use vstd::prelude::*;

use crate::escape::{PH_GT, PH_LT, PH_QUOTE};
use crate::text::push_str;

verus! {

/// ` name="value"` for each attribute, in order.
pub open spec fn attrs_of(data: Seq<(&str, &str)>) -> Seq<char>
    decreases data.len(),
{
    if data.len() == 0 {
        Seq::empty()
    } else {
        attrs_of(data.drop_last()) + seq![' '] + data.last().0@ + seq!['=', PH_QUOTE]
            + data.last().1@ + seq![PH_QUOTE]
    }
}

/// `<tag attrs>` in intermediate form.
pub open spec fn opening(tag: Seq<char>, attrs: Seq<char>) -> Seq<char> {
    seq![PH_LT] + tag + attrs + seq![PH_GT]
}

/// `</tag>` in intermediate form.
pub open spec fn closing(tag: Seq<char>) -> Seq<char> {
    seq![PH_LT, '/'] + tag + seq![PH_GT]
}

/// A whole element around `contents`.
pub open spec fn element(tag: Seq<char>, attrs: Seq<char>, contents: Seq<char>) -> Seq<char> {
    opening(tag, attrs) + contents + closing(tag)
}

pub trait HtmlWriting {
    /// Everything written so far.
    spec fn written(&self) -> Seq<char>;

    fn write_tag(&mut self, tag: &str, contents: &str, tag_data: &[(&str, &str)])
        ensures
            final(self).written() == old(self).written() + element(
                tag@,
                attrs_of(tag_data@),
                contents@,
            ),
    ;

    fn write_opening_tag(&mut self, tag: &str, tag_data: &[(&str, &str)])
        ensures
            final(self).written() == old(self).written() + opening(tag@, attrs_of(tag_data@)),
    ;

    fn write_closing_tag(&mut self, tag: &str)
        ensures
            final(self).written() == old(self).written() + closing(tag@),
    ;
}

impl HtmlWriting for Vec<char> {
    open spec fn written(&self) -> Seq<char> {
        self@
    }

    fn write_opening_tag(&mut self, tag: &str, tag_data: &[(&str, &str)]) {
        let ghost o = self@;
        self.push(PH_LT);
        push_str(self, tag);
        let ghost start = self@;
        let mut i: usize = 0;
        while i < tag_data.len()
            invariant
                i <= tag_data@.len(),
                self@ == start + attrs_of(tag_data@.subrange(0, i as int)),
            decreases tag_data@.len() - i,
        {
            let (name, value) = tag_data[i];
            self.push(' ');
            push_str(self, name);
            self.push('=');
            self.push(PH_QUOTE);
            push_str(self, value);
            self.push(PH_QUOTE);
            proof {
                let d = tag_data@.subrange(0, i + 1);
                assert(d.drop_last() =~= tag_data@.subrange(0, i as int));
                assert(d.last() == tag_data@[i as int]);
                assert(self@ =~= start + attrs_of(d));
            }
            i = i + 1;
        }
        self.push(PH_GT);
        proof {
            assert(tag_data@.subrange(0, tag_data@.len() as int) =~= tag_data@);
            assert(self@ =~= o + opening(tag@, attrs_of(tag_data@)));
        }
    }

    fn write_closing_tag(&mut self, tag: &str) {
        let ghost o = self@;
        self.push(PH_LT);
        self.push('/');
        push_str(self, tag);
        self.push(PH_GT);
        assert(self@ =~= o + closing(tag@));
    }

    fn write_tag(&mut self, tag: &str, contents: &str, tag_data: &[(&str, &str)]) {
        let ghost o = self@;
        self.write_opening_tag(tag, tag_data);
        push_str(self, contents);
        self.write_closing_tag(tag);
        assert(self@ =~= o + element(tag@, attrs_of(tag_data@), contents@));
    }
}

} // verus!
