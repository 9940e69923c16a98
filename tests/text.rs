use sitebuild::text::replace_text;

#[test]
fn replaces_every_occurrence() {
    assert_eq!(replace_text("a {{x}} b {{x}}", "{{x}}", "1"), "a 1 b 1");
}

#[test]
fn occurrences_do_not_overlap() {
    assert_eq!(replace_text("aaaa", "aa", "b"), "bb");
    assert_eq!(replace_text("aaa", "aa", "b"), "ba");
}

#[test]
fn replacement_is_not_rescanned() {
    assert_eq!(replace_text("x", "x", "xx"), "xx");
}

#[test]
fn empty_pattern_changes_nothing() {
    assert_eq!(replace_text("abc", "", "z"), "abc");
}

#[test]
fn missing_pattern_changes_nothing() {
    assert_eq!(replace_text("abc", "d", "z"), "abc");
}
