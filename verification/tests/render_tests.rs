use sitegen::highlight::highlight;
use sitegen::render::diff_and_highlight;

#[test]
fn missing_side_yields_empty_fragment() {
    let present = Some("int x;\n".to_string());
    assert_eq!(diff_and_highlight(&None, &present, "c"), "");
    assert_eq!(diff_and_highlight(&present, &None, "c"), "");
    assert_eq!(diff_and_highlight(&None, &None, "c"), "");
}

#[test]
fn diff_fragment_marks_changed_lines() {
    let old_text = Some("int a;\nint b;\n".to_string());
    let new_text = Some("int a;\nint c;\n".to_string());
    let html = diff_and_highlight(&old_text, &new_text, "c");
    assert!(html.starts_with("<pre class=\"highlight\">\n"));
    assert!(html.ends_with("</pre>\n"));
    assert!(html.contains("<span class=\"delete\">"));
    assert!(html.contains("<span class=\"insert\">"));
    // three rendered rows: the shared line, the deleted one, the inserted one
    assert_eq!(html.matches('\n').count(), 5);
}

#[test]
fn identical_files_render_without_change_markers() {
    let content = Some("one\ntwo\n".to_string());
    let html = diff_and_highlight(&content, &content, "");
    assert!(!html.contains("class=\"delete\""));
    assert!(!html.contains("class=\"insert\""));
    assert!(html.contains("one"));
    assert!(html.contains("two"));
}

#[test]
fn highlight_wraps_one_styled_line_per_input_line() {
    let html = highlight("fn main() {}\nlet x = 1;\n", "rs");
    assert!(html.starts_with("<pre class=\"highlight\">\n"));
    assert!(html.ends_with("</pre>\n"));
    assert!(html.contains("<span"), "token markup expected: {html}");
    // wrapper line, two content lines, closing line
    assert_eq!(html.matches('\n').count(), 4);
}

#[test]
fn highlight_of_unknown_language_keeps_text() {
    let html = highlight("plain words\n", "nosuchlang");
    assert!(html.contains("plain words"));
}
