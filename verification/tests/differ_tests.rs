use sitegen::differ::diff;
use sitegen::differ::diff_lines;
use sitegen::differ::plain_rows;
use sitegen::differ::ChangeTag;

fn texts(tags_keep: &[ChangeTag], lines: &[(ChangeTag, &str)]) -> String {
    let mut out = String::new();
    for (tag, text) in lines {
        if tags_keep.contains(tag) {
            out.push_str(text);
        }
    }
    out
}

fn collected(old_text: &str, new_text: &str) -> Vec<(ChangeTag, String)> {
    diff_lines(old_text, new_text)
        .into_iter()
        .map(|c| (c.tag, c.text))
        .collect()
}

#[test]
fn diff_identity_yields_only_equal() {
    let input = "alpha\nbeta\ngamma\n";
    let changes = diff_lines(input, input);
    assert_eq!(changes.len(), 3);
    for c in &changes {
        assert_eq!(c.tag, ChangeTag::Equal);
    }
    let joined: String = changes.iter().map(|c| c.text.as_str()).collect();
    assert_eq!(joined, input);
}

#[test]
fn diff_substitution_scenario() {
    let changes = collected("a\nb\nc\n", "a\nx\nc\n");
    assert_eq!(
        changes,
        vec![
            (ChangeTag::Equal, "a\n".to_string()),
            (ChangeTag::Delete, "b\n".to_string()),
            (ChangeTag::Insert, "x\n".to_string()),
            (ChangeTag::Equal, "c\n".to_string()),
        ]
    );
}

#[test]
fn diff_reconstructs_both_sides() {
    let cases = [
        ("a\nb\nc\n", "a\nx\nc\n"),
        ("", "new\ncontent\n"),
        ("old\n", ""),
        ("one\ntwo", "one\ntwo\nthree"),
        ("x", "y"),
    ];
    for (old_text, new_text) in cases {
        let changes: Vec<(ChangeTag, String)> = collected(old_text, new_text);
        let pairs: Vec<(ChangeTag, &str)> =
            changes.iter().map(|(t, s)| (*t, s.as_str())).collect();
        let old_back = texts(&[ChangeTag::Equal, ChangeTag::Delete], &pairs);
        let new_back = texts(&[ChangeTag::Equal, ChangeTag::Insert], &pairs);
        assert_eq!(old_back, old_text);
        assert_eq!(new_back, new_text);
    }
}

#[test]
fn diff_returns_tags_union_and_markup() {
    let (tags, full, html) = diff("a\nb\n", "a\nc\n");
    assert_eq!(
        tags,
        vec![ChangeTag::Equal, ChangeTag::Delete, ChangeTag::Insert]
    );
    assert_eq!(full, "a\nb\nc\n");
    assert_eq!(
        html,
        "a\n<span class=\"delete\">b\n</span><span class=\"insert\">c\n</span>"
    );
}

#[test]
fn plain_rows_wraps_each_changed_line() {
    let changes = diff_lines("keep\ngone\n", "keep\nhere\n");
    let html = plain_rows(&changes);
    assert_eq!(
        html,
        "keep\n<span class=\"delete\">gone\n</span><span class=\"insert\">here\n</span>"
    );
}

#[test]
fn diff_without_trailing_newline() {
    let changes = collected("a", "a");
    assert_eq!(changes, vec![(ChangeTag::Equal, "a".to_string())]);
}

#[test]
fn diff_of_empty_inputs_is_empty() {
    assert!(diff_lines("", "").is_empty());
    let (tags, full, html) = diff("", "");
    assert!(tags.is_empty());
    assert_eq!(full, "");
    assert_eq!(html, "");
}
