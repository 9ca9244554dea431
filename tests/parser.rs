use fxg::parser::parse;

fn render(input: &str) -> String {
    parse(input)
}

fn check(input: &str, output: &str) {
    assert_eq!(render(input).trim(), output);
}

#[test]
fn code() {
    check("<>code</>", "<code>code</code>");
}

#[test]
fn code_with_escape() {
    check("<>code \\</> with escape</>", "<code>code &lt;/&gt; with escape</code>");
}

#[test]
fn code_only_tag() {
    check("<>\\</></>", "<code>&lt;/&gt;</code>");
}

#[test]
fn code_only_backslash() {
    check("<>\\\\</>", "<code>\\</code>");
}

#[test]
fn code_only_escaped_tag() {
    check("<>\\\\\\</></>", "<code>\\&lt;/&gt;</code>");
}

#[test]
fn code_escaped_tag_in_context() {
    check("<>\\ test \\</> yayay</>", "<code>\\ test &lt;/&gt; yayay</code>");
}

#[test]
fn code_unterminated_is_text() {
    check("<>open", "&lt;&gt;open");
}

#[test]
fn cursive() {
    check("//cursive//", "<em>cursive</em>");
}

#[test]
fn bold() {
    check("!!bold!!", "<strong>bold</strong>");
}

#[test]
fn underline() {
    check("__underline__", "<u>underline</u>");
}

#[test]
fn cursive_with_escape() {
    check("//cursive \\// still cursive//", "<em>cursive // still cursive</em>");
}

#[test]
fn bold_with_escape() {
    check("!!bold \\!! still bold!!", "<strong>bold !! still bold</strong>");
}

#[test]
fn underline_with_escape() {
    check("__underline \\__ still underline__", "<u>underline __ still underline</u>");
}

#[test]
fn cursive_no_format() {
    check("//cursive", "//cursive");
}

#[test]
fn bold_no_format() {
    check("!!bold", "!!bold");
}

#[test]
fn underline_no_format() {
    check("__underline", "__underline");
}

#[test]
fn cursive_with_escaped_final_tag() {
    check("//cursive \\//", "//cursive //");
}

#[test]
fn bold_with_escaped_final_tag() {
    check("!!bold \\!!", "!!bold !!");
}

#[test]
fn underline_with_escaped_final_tag() {
    check("__underline \\__", "__underline __");
}

#[test]
fn emphasis_escaped_closer() {
    check("//a\\//b//", "<em>a//b</em>");
}

#[test]
fn nested_markup() {
    check("!!a //b// c!!", "<strong>a <em>b</em> c</strong>");
}

#[test]
fn header_1() {
    check("= Heading 1 =", "<h1>Heading 1</h1>");
}

#[test]
fn header_2() {
    check("== Heading 2 ==", "<h2>Heading 2</h2>");
}

#[test]
fn header_3() {
    check("=== Heading 3 ===", "<h3>Heading 3</h3>");
}

#[test]
fn header_4() {
    check("==== Heading 4 ====", "<h4>Heading 4</h4>");
}

#[test]
fn header_5() {
    check("===== Heading 5 =====", "<h5>Heading 5</h5>");
}

#[test]
fn header_6() {
    check("====== Heading 6 ======", "<h6>Heading 6</h6>");
}

#[test]
fn excess_equals_signs() {
    check("======== Heading 8 ========", "======== Heading 8 ========");
}

#[test]
fn seven_equals_signs() {
    check("======= Heading 7 =======", "======= Heading 7 =======");
}

#[test]
fn fully_unclosed_header() {
    check("== Heading 2", "== Heading 2");
}

#[test]
fn partially_unclosed_header() {
    check("== Heading 2 =", "== Heading 2 =");
}

#[test]
fn empty_header() {
    check("= =", "<h1></h1>");
}

#[test]
fn empty_header_3() {
    check("=== ===", "<h3></h3>");
}

#[test]
fn header_with_markup() {
    check("== a //b// ==", "<h2>a <em>b</em></h2>");
}

#[test]
fn horizonal_rule() {
    check("---", "<hr>");
}

#[test]
fn horizonal_rule_not_enough() {
    check("--", "--");
}

#[test]
fn horizonal_rule_excess() {
    check("------", "<hr>");
}

#[test]
fn horizonal_rule_ends_with() {
    check("------ff", "------ff");
}

#[test]
fn horizonal_rule_starts_with() {
    check("ff------", "ff------");
}

#[test]
fn html_entities_amp() {
    check("&", "&amp;");
}

#[test]
fn html_entities_lt() {
    check("<", "&lt;");
}

#[test]
fn html_entities_gt() {
    check(" >", "&gt;");
}

#[test]
fn entities_beside_generated_tags() {
    check("a < b & //c > d//", "a &lt; b &amp; <em>c &gt; d</em>");
}

#[test]
fn link() {
    check(
        "<#https://example.com/ Example>",
        "<a href=\"https://example.com/\">Example</a>",
    );
}

#[test]
fn image() {
    check(
        "<!https://example.com/img.jpg Example>",
        "<img src=\"https://example.com/img.jpg\" alt=\"Example\">",
    );
}

#[test]
fn link_unclosed() {
    check("<#not a link", "&lt;#not a link");
}

#[test]
fn image_unclosed() {
    check("<!not an image", "&lt;!not an image");
}

#[test]
fn link_no_contents() {
    check(
        "<#https://google.com/>",
        "<a href=\"https://google.com/\">https://google.com/</a>",
    );
}

#[test]
fn image_no_alt() {
    check("<!https://example.com/>", "<img src=\"https://example.com/\">");
}

#[test]
fn link_short() {
    check("<#https://x.io go>", "<a href=\"https://x.io\">go</a>");
}

#[test]
fn link_destination_only() {
    check("<#https://x.io>", "<a href=\"https://x.io\">https://x.io</a>");
}

#[test]
fn link_without_destination_is_text() {
    check("<# go>", "&lt;# go&gt;");
}

#[test]
fn link_then_text() {
    check("see <#https://x.io here> now", "see <a href=\"https://x.io\">here</a> now");
}

#[test]
fn blank_line_is_break() {
    assert_eq!(render("a\n\nb"), "a <br/>b ");
}

#[test]
fn blank_line_after_heading() {
    assert_eq!(render("= T =\n\nb"), "<h1>T</h1>b ");
}

#[test]
fn empty_document() {
    assert_eq!(render(""), "");
}

#[test]
fn unordered_list() {
    assert_eq!(
        render("- a\n- b\n-- c\n- d"),
        "<ul><li>a</li><li>b</li><ul><li>c</li></ul><li>d</li></ul>"
    );
}

#[test]
fn unordered_list_then_text() {
    assert_eq!(render("- a\nb"), "<ul><li>a</li></ul>b ");
}

#[test]
fn checkbox_items() {
    assert_eq!(
        render("- [ ] todo\n- [-] half\n- [x] done"),
        "<ul><li><input type=\"checkbox\" class=\"fxg-clitem\"> todo</input></li>\
         <li><input type=\"checkbox\" class=\"fxg-indeterminate fxg-clitem\"> half</input></li>\
         <li><input type=\"checkbox\" class=\"fxg-indeterminate fxg-clitem\" checked=\"\"> done</input></li></ul>"
    );
}

#[test]
fn ordered_list() {
    assert_eq!(
        render("1. first\n2. second"),
        "<ol type=\"1\"><li>first</li><li>second</li></ol>"
    );
}

#[test]
fn ordered_list_kinds() {
    assert_eq!(render("a. x"), "<ol type=\"a\"><li>x</li></ol>");
    assert_eq!(render("A. x"), "<ol type=\"A\"><li>x</li></ol>");
    assert_eq!(render("iv. x"), "<ol type=\"i\"><li>x</li></ol>");
    assert_eq!(render("IV. x"), "<ol type=\"I\"><li>x</li></ol>");
    assert_eq!(render("12. x"), "<ol type=\"1\"><li>x</li></ol>");
}

#[test]
fn nested_roman_under_numbers() {
    assert_eq!(
        render("1. first\n1.i. sub\n1.ii. sub2\n2. second"),
        "<ol type=\"1\"><li>first</li><li><ol type=\"i\"><li>sub</li><li>sub2</li></ol></li>\
         <li>second</li></ol>"
    );
}

#[test]
fn ordered_list_ends_at_other_marker() {
    assert_eq!(
        render("1. one\nb. two"),
        "<ol type=\"1\"><li>one</li></ol><ol type=\"a\"><li>two</li></ol>"
    );
}

#[test]
fn text_with_period_is_text() {
    assert_eq!(render("Hello world. Bye"), "Hello world. Bye ");
}

#[test]
fn table_with_header() {
    assert_eq!(
        render("|a|b|\n|-|-|\n|1|2|"),
        "<table><tr><th>a</th><th>b</th></tr><tr><td>1</td><td>2</td></tr></table>"
    );
}

#[test]
fn table_without_header() {
    assert_eq!(
        render("| a | b |\n| 1 | 2 |"),
        "<table><tr><td>a</td><td>b</td></tr><tr><td>1</td><td>2</td></tr></table>"
    );
}

#[test]
fn table_cell_with_th_text() {
    assert_eq!(
        render("|math|\n|with|"),
        "<table><tr><td>math</td></tr><tr><td>with</td></tr></table>"
    );
}

#[test]
fn table_then_text() {
    assert_eq!(render("|a|\nafter"), "<table><tr><td>a</td></tr></table>after ");
}

#[test]
fn blockquote_with_caption() {
    assert_eq!(
        render("> quote\n> - author"),
        "<figure><blockquote>quote<br></blockquote><figcaption>author</figcaption></figure>"
    );
}

#[test]
fn blockquote_nested() {
    assert_eq!(
        render("> a\n>> b\n> c"),
        "<figure><blockquote>a<br><figure><blockquote>b<br></blockquote></figure>c<br>\
         </blockquote></figure>"
    );
}

#[test]
fn blockquote_then_text() {
    assert_eq!(
        render("> a\nplain"),
        "<figure><blockquote>a<br></blockquote></figure>plain "
    );
}

#[test]
fn code_block() {
    assert_eq!(
        render("<rust>\n  fn a() {\n    b\n  }\n</>"),
        "<pre><code class=\"language-rust\">fn a() {\n  b\n}\n</code></pre>"
    );
}

#[test]
fn code_block_without_language() {
    assert_eq!(
        render("<>\n<b> & //x//\n\n</>\nafter"),
        "<pre><code>&lt;b&gt; &amp; //x//\n\n</code></pre>after "
    );
}

#[test]
fn code_block_unterminated_is_text() {
    assert_eq!(render("<rust>\nx"), "&lt;rust&gt; x ");
}

#[test]
fn horizontal_rule_of_other_characters() {
    check("***", "<hr>");
    check("~~~~", "<hr>");
}

#[test]
fn code_block_unicode_language() {
    assert_eq!(
        render("<größe>\nx\n</>"),
        "<pre><code class=\"language-größe\">x\n</code></pre>"
    );
}

#[test]
fn code_block_name_with_digit_is_text() {
    assert_eq!(render("<r2>\nx\n</>"), "&lt;r2&gt; x &lt;/&gt; ");
}

#[test]
fn unordered_list_jumps_two_levels() {
    assert_eq!(
        render("- a\n--- b\n- c"),
        "<ul><li>a</li><ul><ul><li>b</li></ul></ul><li>c</li></ul>"
    );
}

#[test]
fn blockquote_dash_caption() {
    assert_eq!(
        render("> a\n- author"),
        "<figure><blockquote>a<br></blockquote><figcaption>author</figcaption></figure>"
    );
}

#[test]
fn blockquote_deep_then_end() {
    assert_eq!(
        render(">> a"),
        "<figure><blockquote><figure><blockquote>a<br></blockquote></figure></blockquote></figure>"
    );
}

#[test]
fn table_separator_only_drops_row() {
    assert_eq!(
        render("|h|\n|---|"),
        "<table><tr><th>h</th></tr></table>"
    );
}
