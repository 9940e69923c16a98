use sitebuild::fragments::{build_fragments, FragmentError, FragmentTable};

#[test]
fn reads_two_blocks() {
    let t = build_fragments("{{header}}\n<h1>Hi</h1>\n{{/header}}\n{{footer}}\n<p>bye</p>\nline2\n{{/footer}}\n")
        .unwrap();
    assert_eq!(t.get("header"), Some("<h1>Hi</h1>\n".to_string()));
    assert_eq!(t.get("footer"), Some("<p>bye</p>\nline2\n".to_string()));
    assert_eq!(t.get("Header"), None);
}

#[test]
fn body_may_hold_placeholder_lines() {
    let t = build_fragments("{{page}}\n{{component: header}}\n<main></main>\n{{/page}}").unwrap();
    assert_eq!(t.get("page"), Some("{{component: header}}\n<main></main>\n".to_string()));
    assert_eq!(t.get("component: header"), None);
}

#[test]
fn later_definition_wins() {
    let t = build_fragments("{{a}}\none\n{{/a}}\n{{a}}\ntwo\n{{/a}}").unwrap();
    assert_eq!(t.get("a"), Some("two\n".to_string()));
}

#[test]
fn empty_body_is_kept() {
    let t = build_fragments("{{empty}}\n{{/empty}}").unwrap();
    assert_eq!(t.get("empty"), Some(String::new()));
}

#[test]
fn lines_outside_blocks_and_stray_closes_are_ignored() {
    let t = build_fragments("intro\n{{/nothing}}\n{{x}}\nbody\n{{/x}}\noutro\n").unwrap();
    assert_eq!(t.get("x"), Some("body\n".to_string()));
    assert_eq!(t.get(""), None);
    assert_eq!(t.get("nothing"), None);
}

#[test]
fn names_keep_inner_spaces() {
    let t = build_fragments("{{ my block }}\nb\n{{/ my block }}").unwrap();
    assert_eq!(t.get(" my block "), Some("b\n".to_string()));
    assert_eq!(t.get("myblock"), None);
}

#[test]
fn bare_marker_is_an_error() {
    assert_eq!(build_fragments("{{").err(), Some(FragmentError::MalformedMarker { line: 1 }));
}

#[test]
fn unclosed_marker_line_is_an_error() {
    let r = build_fragments("text\n{{broken\nbody\n{{/broken}}");
    assert_eq!(r.err(), Some(FragmentError::MalformedMarker { line: 2 }));
}

#[test]
fn empty_name_is_an_error() {
    let r = build_fragments("{{}}\nbody\n{{/}}");
    assert_eq!(r.err(), Some(FragmentError::MalformedMarker { line: 1 }));
}

#[test]
fn unclosed_block_is_an_error() {
    let r = build_fragments("{{a}}\nx\n");
    assert_eq!(r.err(), Some(FragmentError::UnclosedBlock { name: "a".to_string() }));
}

#[test]
fn empty_document_gives_empty_table() {
    let t = build_fragments("").unwrap();
    assert_eq!(t.get(""), None);
}

#[test]
fn table_insert_and_get() {
    let mut t = FragmentTable::new();
    assert_eq!(t.get("a"), None);
    t.insert("a", "1");
    t.insert("b", "2");
    t.insert("a", "3");
    assert_eq!(t.get("a"), Some("3".to_string()));
    assert_eq!(t.get("b"), Some("2".to_string()));
    assert_eq!(t.get("c"), None);
    assert_eq!(t.get("c"), None);
}

#[test]
fn crlf_definitions_are_read() {
    let t = build_fragments("{{nav}}\r\n<nav>\r\n</nav>\r\n{{/nav}}\r\n").unwrap();
    assert_eq!(t.get("nav"), Some("<nav>\n</nav>\n".to_string()));
}
