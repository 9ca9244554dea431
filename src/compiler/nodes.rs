//! The nodes of a parsed page and their HTML.
use vstd::prelude::*;

verus! {

broadcast use vstd::std_specs::vec::axiom_vec_index_decreases, vstd::std_specs::vec::axiom_vec_decreases_to_view, vstd::seq::axiom_seq_index_decreases;

pub enum DocumentNode {
    Header1(Vec<DocumentNode>),
    Header2(Vec<DocumentNode>),
    Header3(Vec<DocumentNode>),
    Header4(Vec<DocumentNode>),
    Header5(Vec<DocumentNode>),
    Header6(Vec<DocumentNode>),
    Bold(Vec<DocumentNode>),
    Italic(Vec<DocumentNode>),
    Underline(Vec<DocumentNode>),
    Link { text: String, href: String },
    Image { alt: String, src: String },
    Text(String),
    LineBreak,
    Eof,
}

/// What `str`'s `Debug` formatting writes for `s`.
pub uninterp spec fn debug_quoted(s: Seq<char>) -> Seq<char>;

/// Relies on `<str as Debug>::fmt`: `s` in double quotes, with quotes,
/// backslashes and control characters escaped; the result depends on `s`
/// alone.
#[verifier::external_body]
fn debug_str(s: &str) -> (r: String)
    ensures
        r@ == debug_quoted(s@),
{
    format!("{:?}", s)
}

/// ` name=value ` with the value quoted as `Debug` quotes it.
pub open spec fn debug_attr(name: Seq<char>, value: Seq<char>) -> Seq<char> {
    seq![' '] + name + seq!['='] + debug_quoted(value) + seq![' ']
}

/// The HTML of the first `k` of `nodes`.
pub open spec fn nodes_html(nodes: Seq<DocumentNode>, k: int) -> Seq<char>
    decreases nodes, k + 2,
{
    if k <= 0 || k > nodes.len() {
        Seq::empty()
    } else {
        nodes_html(nodes, k - 1) + node_html(nodes[k - 1])
    }
}

/// `<tag>` and `</tag>` around `inner`.
pub open spec fn wrapped(tag: Seq<char>, inner: Seq<char>) -> Seq<char> {
    seq!['<'] + tag + seq!['>'] + inner + seq!['<', '/'] + tag + seq!['>']
}

/// The HTML of one node.
pub open spec fn node_html(n: DocumentNode) -> Seq<char>
    decreases n, 2int,
{
    match n {
        DocumentNode::Header1(ns) => wrapped("h1"@, nodes_html(ns@, ns@.len() as int)),
        DocumentNode::Header2(ns) => wrapped("h2"@, nodes_html(ns@, ns@.len() as int)),
        DocumentNode::Header3(ns) => wrapped("h3"@, nodes_html(ns@, ns@.len() as int)),
        DocumentNode::Header4(ns) => wrapped("h4"@, nodes_html(ns@, ns@.len() as int)),
        DocumentNode::Header5(ns) => wrapped("h5"@, nodes_html(ns@, ns@.len() as int)),
        DocumentNode::Header6(ns) => wrapped("h6"@, nodes_html(ns@, ns@.len() as int)),
        DocumentNode::Bold(ns) => wrapped("b"@, nodes_html(ns@, ns@.len() as int)),
        DocumentNode::Italic(ns) => wrapped("i"@, nodes_html(ns@, ns@.len() as int)),
        DocumentNode::Underline(ns) => wrapped("u"@, nodes_html(ns@, ns@.len() as int)),
        DocumentNode::Image { alt, src } => "<img"@ + debug_attr("src"@, src@) + debug_attr(
            "alt"@,
            alt@,
        ) + "/>"@,
        DocumentNode::Link { text, href } => "<a"@ + debug_attr("href"@, href@) + ">"@ + text@
            + "</a>"@,
        DocumentNode::LineBreak => "<br/>"@,
        DocumentNode::Text(text) => text@,
        DocumentNode::Eof => Seq::empty(),
    }
}

fn push_debug_attr(output: &mut String, name: &str, value: &String)
    ensures
        final(output)@ == old(output)@ + debug_attr(name@, value@),
{
    let ghost o = output@;
    output.append(" ");
    output.append(name);
    output.append("=");
    let q = debug_str(value.as_str());
    output.append(q.as_str());
    output.append(" ");
    proof {
        reveal_strlit(" ");
        reveal_strlit("=");
    }
    assert(output@ =~= o + debug_attr(name@, value@));
}

/// Writes `<tag>`, the nodes, and `</tag>`.
fn write_tag(output: &mut String, tag: &str, nodes: &Vec<DocumentNode>)
    ensures
        final(output)@ == old(output)@ + wrapped(tag@, nodes_html(nodes@, nodes@.len() as int)),
    decreases nodes@, 1int,
{
    let ghost o = output@;
    output.append("<");
    output.append(tag);
    output.append(">");
    write_nodes(output, nodes);
    output.append("</");
    output.append(tag);
    output.append(">");
    proof {
        reveal_strlit("<");
        reveal_strlit(">");
        reveal_strlit("</");
    }
    assert(output@ =~= o + wrapped(tag@, nodes_html(nodes@, nodes@.len() as int)));
}

/// Writes the HTML of every node of `nodes`, in order.
pub fn write_nodes(output: &mut String, nodes: &Vec<DocumentNode>)
    ensures
        final(output)@ == old(output)@ + nodes_html(nodes@, nodes@.len() as int),
    decreases nodes@, 0int,
{
    let ghost o = output@;
    let mut k: usize = 0;
    while k < nodes.len()
        invariant
            k <= nodes.len(),
            output@ == o + nodes_html(nodes@, k as int),
        decreases nodes.len() - k,
    {
        nodes[k].as_html(output);
        assert(output@ =~= o + nodes_html(nodes@, k + 1));
        k = k + 1;
    }
}

impl DocumentNode {
    pub fn as_html(&self, output: &mut String)
        ensures
            final(output)@ == old(output)@ + node_html(*self),
        decreases *self, 2int,
    {
        let ghost o = output@;
        match self {
            DocumentNode::Header1(nodes) => write_tag(output, "h1", nodes),
            DocumentNode::Header2(nodes) => write_tag(output, "h2", nodes),
            DocumentNode::Header3(nodes) => write_tag(output, "h3", nodes),
            DocumentNode::Header4(nodes) => write_tag(output, "h4", nodes),
            DocumentNode::Header5(nodes) => write_tag(output, "h5", nodes),
            DocumentNode::Header6(nodes) => write_tag(output, "h6", nodes),
            DocumentNode::Bold(nodes) => write_tag(output, "b", nodes),
            DocumentNode::Italic(nodes) => write_tag(output, "i", nodes),
            DocumentNode::Underline(nodes) => write_tag(output, "u", nodes),
            DocumentNode::Image { alt, src } => {
                output.append("<img");
                push_debug_attr(output, "src", src);
                push_debug_attr(output, "alt", alt);
                output.append("/>");
                assert(output@ =~= o + node_html(*self));
            },
            DocumentNode::Link { text, href } => {
                output.append("<a");
                push_debug_attr(output, "href", href);
                output.append(">");
                output.append(text.as_str());
                output.append("</a>");
                assert(output@ =~= o + node_html(*self));
            },
            DocumentNode::LineBreak => output.append("<br/>"),
            DocumentNode::Text(text) => output.append(text.as_str()),
            DocumentNode::Eof => {
                assert(output@ =~= o + node_html(*self));
            },
        }
        proof {
            reveal_strlit("<");
        }
        assert(output@ =~= o + node_html(*self));
    }
}

} // verus!
