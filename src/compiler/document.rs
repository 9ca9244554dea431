//! A parsed page: its nodes and its front matter.
use vstd::prelude::*;

use crate::compiler::header::{DocumentHeader, ogp_html};
use crate::compiler::nodes::{DocumentNode, nodes_html, write_nodes};
use crate::project::ProjectMeta;
use crate::text::{chars_of, string_of};

verus! {

pub struct Document(pub Vec<DocumentNode>, pub DocumentHeader);

/// `s` with each space written as `%20`.
pub open spec fn url_spaces(s: Seq<char>) -> Seq<char>
    decreases s.len(),
{
    if s.len() == 0 {
        Seq::empty()
    } else {
        url_spaces(s.drop_last()) + if s.last() == ' ' {
            seq!['%', '2', '0']
        } else {
            seq![s.last()]
        }
    }
}

fn url_spaces_exec(s: &str) -> (r: String)
    ensures
        r@ == url_spaces(s@),
{
    let v = chars_of(s);
    let mut out: Vec<char> = Vec::new();
    let mut i: usize = 0;
    while i < v.len()
        invariant
            i <= v.len(),
            v@ == s@,
            out@ == url_spaces(v@.subrange(0, i as int)),
        decreases v.len() - i,
    {
        let ghost w = v@.subrange(0, i + 1);
        assert(w.drop_last() =~= v@.subrange(0, i as int));
        if v[i] == ' ' {
            out.push('%');
            out.push('2');
            out.push('0');
        } else {
            out.push(v[i]);
        }
        assert(out@ =~= url_spaces(w));
        i = i + 1;
    }
    assert(v@.subrange(0, v.len() as int) =~= v@);
    string_of(&out)
}

impl Document {
    pub fn as_html(&self) -> (r: String)
        ensures
            r@ == nodes_html(self.0@, self.0@.len() as int),
    {
        let mut output = String::new();
        write_nodes(&mut output, &self.0);
        assert(output@ =~= nodes_html(self.0@, self.0@.len() as int));
        output
    }

    /// The Open Graph header of the page, whose address is the site's name
    /// followed by `title` with its spaces escaped.
    pub fn header_html(&self, meta: &ProjectMeta, title: &str) -> (r: String)
        ensures
            r@ == ogp_html(self.1.ogp, self.1.title@, meta.site_name@, meta.site_name@ + url_spaces(title@)),
    {
        let escaped = url_spaces_exec(title);
        let url = meta.site_name.clone().concat(escaped.as_str());
        self.1.ogp.build_ogp(self.1.title.as_str(), meta.site_name.as_str(), url.as_str())
    }

    pub fn header(&self) -> (r: &DocumentHeader)
        ensures
            r == &self.1,
    {
        &self.1
    }
}

} // verus!
