use sitebuild::convert::{convert, render_link_spans, ConvertWarning};

#[test]
fn second_level_heading_is_not_first_level() {
    let r = convert("## Title");
    assert_eq!(r.html, "<h2>Title</h2>\n");
    assert!(!r.html.contains("<h1>"));
}

#[test]
fn first_level_heading() {
    assert_eq!(convert("# Title").html, "<h1>Title</h1>\n");
}

#[test]
fn three_list_lines_share_one_wrapper() {
    let r = convert("- a\n- b\n- c");
    assert_eq!(r.html, "<ul>\n    <li>a</li>\n    <li>b</li>\n    <li>c</li>\n</ul>\n");
    assert_eq!(r.html.matches("<ul>").count(), 1);
    assert_eq!(r.html.matches("<li>").count(), 3);
}

#[test]
fn link_is_substituted_in_place() {
    let r = convert("See [docs](https://x.test) now");
    assert_eq!(r.html, "<p>\n    See <a href=\"https://x.test\">docs</a> now<br>\n</p>\n");
    assert!(r.warnings.is_empty());
}

#[test]
fn image_line_has_no_paragraph() {
    let r = convert("![alt text](img/a.png)");
    assert_eq!(r.html, "<img src=\"img/a.png\" alt=\"alt text\">\n");
    assert!(!r.html.contains("<p>"));
}

#[test]
fn plain_line_is_only_wrapped() {
    let r = convert("hello world");
    assert_eq!(r.html, "<p>\n    hello world<br>\n</p>\n");
}

#[test]
fn plain_lines_share_one_paragraph() {
    let r = convert("one\ntwo");
    assert_eq!(r.html, "<p>\n    one<br>\n    two<br>\n</p>\n");
}

#[test]
fn blank_line_separates_paragraphs() {
    let r = convert("one\n\ntwo");
    assert_eq!(r.html, "<p>\n    one<br>\n</p>\n<p>\n    two<br>\n</p>\n");
}

#[test]
fn quote_lines_are_grouped() {
    let r = convert("> q1\n> q2");
    assert_eq!(r.html, "<p class=\"quote\">\n    q1<br>\n    q2<br>\n</p>\n");
}

#[test]
fn section_change_closes_the_open_container() {
    let r = convert("text\n- item\n# Head\n> q");
    assert_eq!(
        r.html,
        "<p>\n    text<br>\n</p>\n<ul>\n    <li>item</li>\n</ul>\n<h1>Head</h1>\n<p class=\"quote\">\n    q<br>\n</p>\n"
    );
}

#[test]
fn links_in_list_and_quote_lines() {
    let r = convert("- [a](b)\n> [c](d)");
    assert_eq!(
        r.html,
        "<ul>\n    <li><a href=\"b\">a</a></li>\n</ul>\n<p class=\"quote\">\n    <a href=\"d\">c</a><br>\n</p>\n"
    );
}

#[test]
fn heading_text_is_not_scanned_for_links() {
    assert_eq!(convert("# [a](b)").html, "<h1>[a](b)</h1>\n");
}

#[test]
fn empty_document_converts_to_nothing() {
    let r = convert("");
    assert_eq!(r.html, "");
    assert!(r.warnings.is_empty());
}

#[test]
fn unterminated_link_is_kept_with_a_warning() {
    let r = convert("intro\na [b](c");
    assert_eq!(r.html, "<p>\n    intro<br>\n    a [b](c<br>\n</p>\n");
    assert_eq!(r.warnings, vec![ConvertWarning::MalformedLink { line: 2 }]);
}

#[test]
fn malformed_image_is_kept_with_a_warning() {
    let r = convert("![alt](a.png");
    assert_eq!(r.html, "![alt](a.png\n");
    assert_eq!(r.warnings, vec![ConvertWarning::MalformedImage { line: 1 }]);
}

#[test]
fn escaped_and_image_brackets_are_text() {
    let (out, broken) = render_link_spans("\\[x](y) and ![i](j)");
    assert_eq!(out, "\\[x](y) and ![i](j)");
    assert!(!broken);
}

#[test]
fn bracket_without_destination_is_text() {
    let (out, broken) = render_link_spans("[a] b [c](d)");
    assert_eq!(out, "[a] b <a href=\"d\">c</a>");
    assert!(broken);
}

#[test]
fn two_links_on_one_line() {
    let (out, broken) = render_link_spans("[a](1)[b](2)");
    assert_eq!(out, "<a href=\"1\">a</a><a href=\"2\">b</a>");
    assert!(!broken);
}

#[test]
fn crlf_blank_line_separates_paragraphs() {
    let r = convert("one\r\n\r\ntwo\r\n");
    assert_eq!(r.html, "<p>\n    one<br>\n</p>\n<p>\n    two<br>\n</p>\n");
}

#[test]
fn escaped_bracket_line_is_only_wrapped() {
    let r = convert("a \\[b] c");
    assert_eq!(r.html, "<p>\n    a \\[b] c<br>\n</p>\n");
    assert!(r.warnings.is_empty());
}
