use sitebuild::expand::{expand, expand_line, ExpandWarning, DEFAULT_MAX_DEPTH};
use sitebuild::fragments::FragmentTable;

fn table(pairs: &[(&str, &str)]) -> FragmentTable {
    let mut t = FragmentTable::new();
    for (k, v) in pairs {
        t.insert(k, v);
    }
    t
}

#[test]
fn missing_component_expands_to_empty_with_one_warning() {
    let t = table(&[]);
    let r = expand_line("{{component: absent}}", &t, DEFAULT_MAX_DEPTH);
    assert_eq!(r.text, "");
    assert_eq!(r.warnings, vec![ExpandWarning::MissingComponent { name: "absent".to_string() }]);
    assert_eq!(t.get("absent"), None);
}

#[test]
fn found_component_is_substituted_in_place() {
    let t = table(&[("header", "<h1>Hi</h1>")]);
    let r = expand_line("<div>{{component: header}}</div>", &t, DEFAULT_MAX_DEPTH);
    assert_eq!(r.text, "<div><h1>Hi</h1></div>");
    assert!(r.warnings.is_empty());
}

#[test]
fn blanks_in_the_name_are_removed() {
    let t = table(&[("header", "H")]);
    let r = expand_line("{{component:  head er }}", &t, DEFAULT_MAX_DEPTH);
    assert_eq!(r.text, "H");
}

#[test]
fn nested_components_are_expanded() {
    let t = table(&[("a", "[a {{component: b}}]"), ("b", "<b>")]);
    let r = expand_line("x {{component: a}} y", &t, DEFAULT_MAX_DEPTH);
    assert_eq!(r.text, "x [a <b>] y");
    assert!(r.warnings.is_empty());
}

#[test]
fn several_placeholders_left_to_right() {
    let t = table(&[("x", "1"), ("y", "2")]);
    let r = expand_line("{{component: x}} and {{component: y}} and {{component: z}}", &t, 10);
    assert_eq!(r.text, "1 and 2 and ");
    assert_eq!(r.warnings, vec![ExpandWarning::MissingComponent { name: "z".to_string() }]);
}

#[test]
fn self_reference_stops_at_the_depth_limit() {
    let t = table(&[("A", "{{component: A}}")]);
    let r = expand_line("{{component: A}}", &t, DEFAULT_MAX_DEPTH);
    assert_eq!(r.text, "{{component: A}}");
    assert_eq!(r.warnings, vec![ExpandWarning::DepthLimit]);
}

#[test]
fn growing_self_reference_makes_max_depth_substitutions() {
    let t = table(&[("A", "x{{component: A}}")]);
    let r = expand_line("{{component: A}}", &t, 3);
    assert_eq!(r.text, "xxx{{component: A}}");
    assert_eq!(r.warnings, vec![ExpandWarning::DepthLimit]);
}

#[test]
fn mutual_reference_terminates() {
    let t = table(&[("a", "{{component: b}}"), ("b", "{{component: a}}")]);
    let r = expand("{{component: a}}", &t, DEFAULT_MAX_DEPTH);
    assert_eq!(r.text, "{{component: a}}\n");
    assert_eq!(r.warnings, vec![ExpandWarning::DepthLimit]);
}

#[test]
fn zero_depth_leaves_placeholders() {
    let t = table(&[("h", "H")]);
    let r = expand_line("{{component: h}}", &t, 0);
    assert_eq!(r.text, "{{component: h}}");
    assert_eq!(r.warnings, vec![ExpandWarning::DepthLimit]);
}

#[test]
fn exact_number_of_placeholders_needs_no_warning() {
    let t = table(&[("h", "H")]);
    let r = expand_line("{{component: h}}{{component: h}}", &t, 2);
    assert_eq!(r.text, "HH");
    assert!(r.warnings.is_empty());
}

#[test]
fn unterminated_placeholder_is_left_as_is() {
    let t = table(&[("a", "A")]);
    let r = expand_line("see {{component: a", &t, DEFAULT_MAX_DEPTH);
    assert_eq!(r.text, "see {{component: a");
    assert_eq!(r.warnings, vec![ExpandWarning::UnterminatedPlaceholder]);
}

#[test]
fn text_without_placeholders_passes_through() {
    let t = table(&[("a", "A")]);
    let r = expand_line("plain {{title}} text", &t, DEFAULT_MAX_DEPTH);
    assert_eq!(r.text, "plain {{title}} text");
    assert!(r.warnings.is_empty());
}

#[test]
fn document_is_expanded_line_by_line() {
    let t = table(&[("h", "<header>\n<nav></nav>\n")]);
    let r = expand("line1\n{{component: h}}\nline3", &t, DEFAULT_MAX_DEPTH);
    assert_eq!(r.text, "line1\n<header>\n<nav></nav>\n\nline3\n");
    assert!(r.warnings.is_empty());
}

#[test]
fn empty_document_expands_to_empty() {
    let t = table(&[]);
    let r = expand("", &t, DEFAULT_MAX_DEPTH);
    assert_eq!(r.text, "");
}

#[test]
fn expanding_twice_changes_nothing() {
    let t = table(&[("a", "<a>{{component: b}}</a>"), ("b", "B\nC")]);
    let once = expand("x\n{{component: a}} y\nz", &t, DEFAULT_MAX_DEPTH);
    assert_eq!(once.text, "x\n<a>B\nC</a> y\nz\n");
    let twice = expand(&once.text, &t, DEFAULT_MAX_DEPTH);
    assert_eq!(twice.text, once.text);
    assert!(twice.warnings.is_empty());
}

#[test]
fn crlf_line_ends_become_newlines() {
    let t = table(&[("h", "H")]);
    let r = expand("a\r\nb\n", &t, DEFAULT_MAX_DEPTH);
    assert_eq!(r.text, "a\nb\n");
    let r = expand("{{component: h}}\r\nx\ry\r", &t, DEFAULT_MAX_DEPTH);
    assert_eq!(r.text, "H\nx\ry\r\n");
}
