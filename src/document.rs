//! A document as a tree of nodes, and its HTML.
use vstd::prelude::*;

verus! {

broadcast use vstd::std_specs::vec::axiom_vec_index_decreases, vstd::std_specs::vec::axiom_vec_decreases_to_view, vstd::seq::axiom_seq_index_decreases;

pub enum DocumentNode {
    Header1(Vec<DocumentNode>),
    Header2(Vec<DocumentNode>),
    Header3(Vec<DocumentNode>),
    Header4(Vec<DocumentNode>),
    Header5(Vec<DocumentNode>),
    Header6(Vec<DocumentNode>),
    Bold(Vec<DocumentNode>),
    Italic(Vec<DocumentNode>),
    Underline(Vec<DocumentNode>),
    Link { text: Vec<DocumentNode>, href: String },
    Image { alt: String, src: String },
    Text(String),
    LineBreak,
}

/// `<tag>` and `</tag>` around `inner`.
pub open spec fn wrapped(tag: Seq<char>, inner: Seq<char>) -> Seq<char> {
    seq!['<'] + tag + seq!['>'] + inner + seq!['<', '/'] + tag + seq!['>']
}


/// The HTML of the first `k` of `nodes`.
pub open spec fn nodes_html(nodes: Seq<DocumentNode>, k: int) -> Seq<char>
    decreases nodes, k + 2,
{
    if k <= 0 || k > nodes.len() {
        Seq::empty()
    } else {
        nodes_html(nodes, k - 1) + node_html(nodes[k - 1])
    }
}

/// The HTML of one node.
pub open spec fn node_html(n: DocumentNode) -> Seq<char>
    decreases n, 2int,
{
    match n {
        DocumentNode::Header1(ns) => wrapped("h1"@, nodes_html(ns@, ns@.len() as int)),
        DocumentNode::Header2(ns) => wrapped("h2"@, nodes_html(ns@, ns@.len() as int)),
        DocumentNode::Header3(ns) => wrapped("h3"@, nodes_html(ns@, ns@.len() as int)),
        DocumentNode::Header4(ns) => wrapped("h4"@, nodes_html(ns@, ns@.len() as int)),
        DocumentNode::Header5(ns) => wrapped("h5"@, nodes_html(ns@, ns@.len() as int)),
        DocumentNode::Header6(ns) => wrapped("h6"@, nodes_html(ns@, ns@.len() as int)),
        DocumentNode::Bold(ns) => wrapped("b"@, nodes_html(ns@, ns@.len() as int)),
        DocumentNode::Italic(ns) => wrapped("i"@, nodes_html(ns@, ns@.len() as int)),
        DocumentNode::Underline(ns) => wrapped("u"@, nodes_html(ns@, ns@.len() as int)),
        DocumentNode::LineBreak => "<br/>"@,
        DocumentNode::Text(t) => t@,
        DocumentNode::Link { text, href } => "<a href=\""@ + href@ + "\">"@ + nodes_html(text@, text@.len() as int)
            + "</a>"@,
        DocumentNode::Image { alt, src } => "<img src=\""@ + src@ + "\" alt=\""@ + alt@
            + "\">"@,
    }
}

/// Writes `<tag>`, the nodes, and `</tag>`.
fn tag_helper_fn(output: &mut String, tag_name: &str, tag_contents: &Vec<DocumentNode>)
    ensures
        final(output)@ == old(output)@ + seq!['<'] + tag_name@ + seq!['>'] + nodes_html(
            tag_contents@,
            tag_contents@.len() as int,
        ) + seq!['<', '/'] + tag_name@ + seq!['>'],
    decreases tag_contents@, 1int,
{
    let ghost o = output@;
    output.append("<");
    output.append(tag_name);
    output.append(">");
    write_nodes(output, tag_contents);
    output.append("</");
    output.append(tag_name);
    output.append(">");
    proof {
        reveal_strlit("<");
        reveal_strlit(">");
        reveal_strlit("</");
    }
    assert(output@ =~= o + seq!['<'] + tag_name@ + seq!['>'] + nodes_html(
        tag_contents@,
        tag_contents@.len() as int,
    ) + seq!['<', '/'] + tag_name@ + seq!['>']);
}

/// Writes the HTML of every node of `nodes`, in order.
fn write_nodes(output: &mut String, nodes: &Vec<DocumentNode>)
    ensures
        final(output)@ == old(output)@ + nodes_html(nodes@, nodes@.len() as int),
    decreases nodes@, 0int,
{
    let ghost o = output@;
    let mut k: usize = 0;
    while k < nodes.len()
        invariant
            k <= nodes.len(),
            output@ == o + nodes_html(nodes@, k as int),
        decreases nodes.len() - k,
    {
        nodes[k].as_html(output);
        assert(output@ =~= o + nodes_html(nodes@, k + 1));
        k = k + 1;
    }
}

impl DocumentNode {
    pub fn as_html(&self, output: &mut String)
        ensures
            final(output)@ == old(output)@ + node_html(*self),
        decreases *self, 2int,
    {
        let ghost o = output@;
        match self {
            DocumentNode::Header1(nodes) => tag_helper_fn(output, "h1", nodes),
            DocumentNode::Header2(nodes) => tag_helper_fn(output, "h2", nodes),
            DocumentNode::Header3(nodes) => tag_helper_fn(output, "h3", nodes),
            DocumentNode::Header4(nodes) => tag_helper_fn(output, "h4", nodes),
            DocumentNode::Header5(nodes) => tag_helper_fn(output, "h5", nodes),
            DocumentNode::Header6(nodes) => tag_helper_fn(output, "h6", nodes),
            DocumentNode::Bold(nodes) => tag_helper_fn(output, "b", nodes),
            DocumentNode::Italic(nodes) => tag_helper_fn(output, "i", nodes),
            DocumentNode::Underline(nodes) => tag_helper_fn(output, "u", nodes),
            DocumentNode::LineBreak => output.append("<br/>"),
            DocumentNode::Text(text) => output.append(text.as_str()),
            DocumentNode::Link { text, href: to } => {
                output.append("<a href=\"");
                output.append(to.as_str());
                output.append("\">");
                write_nodes(output, text);
                output.append("</a>");
                assert(output@ =~= o + node_html(*self));
            },
            DocumentNode::Image { alt, src } => {
                output.append("<img src=\"");
                output.append(src.as_str());
                output.append("\" alt=\"");
                output.append(alt.as_str());
                output.append("\">");
                assert(output@ =~= o + node_html(*self));
            },
        }
        proof {
            reveal_strlit("<");
        }
        assert(output@ =~= o + node_html(*self));
    }
}

pub struct Document {
    pub nodes: Vec<DocumentNode>,
}

impl Document {
    pub open spec fn html(&self) -> Seq<char> {
        nodes_html(self.nodes@, self.nodes@.len() as int)
    }

    pub fn as_html(&self) -> (r: String)
        ensures
            r@ == self.html(),
    {
        let mut output = String::new();
        write_nodes(&mut output, &self.nodes);
        assert(output@ =~= self.html());
        output
    }
}

} // verus!
