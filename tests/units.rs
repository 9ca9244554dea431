use fxg::compiler::document::Document as Page;
use fxg::compiler::header::{DocumentHeader, Image, OgpData};
use fxg::compiler::nodes::DocumentNode as PageNode;
use fxg::document::{Document, DocumentNode};
use fxg::html::HtmlWriting;
use fxg::parser::{finish_html, parse_blockqoute, parse_text};
use fxg::project::ProjectMeta;

#[test]
fn parse_text_uses_placeholders() {
    let inner = parse_text("//x//");
    assert_ne!(inner, "<em>x</em>");
    assert_eq!(finish_html(&inner), "<em>x</em>");
}

#[test]
fn parse_text_plain() {
    assert_eq!(parse_text("plain text"), "plain text");
}

#[test]
fn finish_escapes_author_text() {
    assert_eq!(finish_html("a<b>&c"), "a&lt;b&gt;&amp;c");
}

#[test]
fn blockquote_engine_counts_lines() {
    let (html, used) = parse_blockqoute("> a\n> b\nc\n");
    assert_eq!(used, 2);
    assert_eq!(finish_html(&html), "<figure><blockquote>a<br>b<br></blockquote></figure>");
}

#[test]
fn blockquote_engine_empty() {
    let (html, used) = parse_blockqoute("");
    assert_eq!(used, 0);
    assert_eq!(html, "");
}

#[test]
fn document_tree_html() {
    let doc = Document {
        nodes: vec![
            DocumentNode::Header1(vec![DocumentNode::Text("T".to_string())]),
            DocumentNode::Bold(vec![DocumentNode::Italic(vec![DocumentNode::Text(
                "x".to_string(),
            )])]),
            DocumentNode::LineBreak,
            DocumentNode::Link {
                text: vec![DocumentNode::Underline(vec![DocumentNode::Text("u".to_string())])],
                href: "h".to_string(),
            },
            DocumentNode::Image {
                alt: "a".to_string(),
                src: "s".to_string(),
            },
        ],
    };
    assert_eq!(
        doc.as_html(),
        "<h1>T</h1><b><i>x</i></b><br/><a href=\"h\"><u>u</u></a><img src=\"s\" alt=\"a\">"
    );
}

fn header(image: Option<Image>) -> DocumentHeader {
    DocumentHeader {
        ogp: OgpData {
            typ: "article".to_string(),
            description: "d".to_string(),
            image,
        },
        title: "My Page".to_string(),
        tags: vec![],
        date: std::time::SystemTime::UNIX_EPOCH,
        summary: String::new(),
        author: String::new(),
    }
}

#[test]
fn page_nodes_html() {
    let page = Page(
        vec![
            PageNode::Header2(vec![PageNode::Text("t".to_string())]),
            PageNode::Link {
                text: "go".to_string(),
                href: "a \"b\"".to_string(),
            },
            PageNode::Image {
                alt: "x".to_string(),
                src: "y".to_string(),
            },
            PageNode::LineBreak,
            PageNode::Eof,
        ],
        header(None),
    );
    assert_eq!(
        page.as_html(),
        "<h2>t</h2><a href=\"a \\\"b\\\"\" >go</a><img src=\"y\"  alt=\"x\" /><br/>"
    );
}

#[test]
fn ogp_without_image() {
    let ogp = header(None).ogp;
    assert_eq!(
        ogp.build_ogp("T", "S", "U"),
        "\n<meta property=\"og:type\" content=\"article\">\n<meta property=\"og:title\" content=\"T\">\n<meta property=\"og:site_name\" content=\"S\">\n<meta property=\"og:description\" content=\"d\">\n<meta property=\"og:url\" content=\"U\">\n    "
    );
}

#[test]
fn ogp_with_image() {
    let ogp = header(Some(Image {
        url: "i.png".to_string(),
        width: 1200,
        height: 630,
        alt: Some("dog".to_string()),
    }))
    .ogp;
    let html = ogp.build_ogp("T", "S", "U");
    assert!(html.ends_with(
        "<meta property=\"og:image\" content=\"i.png\"><meta property=\"og:image:alt\" content=\"dog\"><meta property=\"og:image:width\" content=\"1200\"><meta property=\"og:image:height\" content=\"630\">"
    ));
}

#[test]
fn header_html_escapes_spaces_in_address() {
    let page = Page(vec![], header(None));
    let meta = ProjectMeta::default();
    let html = page.header_html(&meta, "a b");
    assert!(html.contains("<meta property=\"og:url\" content=\"https://example.com/a%20b\">"));
    assert!(html.contains("<meta property=\"og:title\" content=\"My Page\">"));
    assert_eq!(page.header().title, "My Page");
}

#[test]
fn project_defaults() {
    let meta = ProjectMeta::default();
    assert_eq!(meta.site_name, "https://example.com/");
    assert_eq!(meta.template, "template.html");
    assert_eq!(meta.output_folder, "out");
}

#[test]
fn html_writing_on_a_buffer() {
    let mut v: Vec<char> = Vec::new();
    v.write_tag("a", "x", &[("href", "y")]);
    v.write_opening_tag("br", &[]);
    v.write_closing_tag("p");
    let s: String = v.iter().collect();
    assert_eq!(finish_html(&s), "<a href=\"y\">x</a><br></p>");
}

#[test]
fn new_project_defaults() {
    let project = fxg::project::Project::default();
    assert_eq!(project.site_name, "https://example.com");
    assert_eq!(project.site_folder, "/");
    assert_eq!(project.source_folder, "src");
    assert_eq!(project.static_folder, "static");
}
