use sitegen::toc::TocGenerator;
use sitegen::toc::TocItem;

fn tree_after(title: &str, headings: &[(u8, Option<&str>)]) -> TocItem {
    let mut gen = TocGenerator::new(title.to_string());
    for (level, text) in headings {
        let t = text.map(|s| s.to_string());
        gen.process_header(*level, &t).expect("heading accepted");
    }
    gen.get_toc_value().expect("tree present")
}

fn names(items: &[TocItem]) -> Vec<String> {
    items.iter().map(|c| c.text.clone()).collect()
}

#[test]
fn slug_replaces_separators_and_lowercases() {
    assert_eq!(
        TocGenerator::string_to_id("My Header, Part 2."),
        "my_header__part_2"
    );
}

#[test]
fn slug_trims_and_strips() {
    assert_eq!(TocGenerator::string_to_id("  ./weird--name"), "weirdname");
    assert_eq!(TocGenerator::string_to_id("___"), "");
    assert_eq!(TocGenerator::string_to_id("Plain"), "plain");
    assert_eq!(TocGenerator::string_to_id("a!b?c"), "abc");
}

#[test]
fn sentinel_heading_is_skipped() {
    let tree = tree_after("T", &[(2, Some("A")), (1, Some("$")), (2, Some("B"))]);
    assert_eq!(tree.text, "T");
    assert_eq!(names(&tree.children), vec!["A", "B"]);
}

#[test]
fn level_one_heading_is_fatal() {
    let mut gen = TocGenerator::new("T".to_string());
    let err = gen
        .process_header(1, &Some("Bad Header".to_string()))
        .expect_err("level-1 heading must be rejected");
    assert_eq!(err.text, "Bad Header");
    assert_eq!(err.url, "#bad_header");
}

#[test]
fn scenario_nested_tree() {
    let tree = tree_after(
        "Intro",
        &[(2, Some("A")), (3, Some("A1")), (2, Some("B"))],
    );
    assert_eq!(tree.text, "Intro");
    assert_eq!(tree.level, 1);
    assert_eq!(tree.url, "#title");
    assert_eq!(names(&tree.children), vec!["A", "B"]);
    assert_eq!(names(&tree.children[0].children), vec!["A1"]);
    assert!(tree.children[1].children.is_empty());
    assert_eq!(tree.children[0].url, "#a");
    assert_eq!(tree.children[0].children[0].url, "#a1");
}

#[test]
fn heading_without_text_gets_generated_anchor() {
    let mut gen = TocGenerator::new("T".to_string());
    let id = gen.process_header(2, &None).unwrap().unwrap();
    assert_eq!(id, "generated_toc_entry_1");
    let tree = gen.get_toc_value().unwrap();
    assert_eq!(tree.children[0].url, "#generated_toc_entry_1");
    assert_eq!(tree.children[0].text, "");
}

#[test]
fn shallower_heading_folds_contexts() {
    let tree = tree_after(
        "Doc",
        &[
            (2, Some("One")),
            (3, Some("One A")),
            (4, Some("Deep")),
            (2, Some("Two")),
        ],
    );
    assert_eq!(names(&tree.children), vec!["One", "Two"]);
    assert_eq!(names(&tree.children[0].children), vec!["One A"]);
    assert_eq!(names(&tree.children[0].children[0].children), vec!["Deep"]);
}

#[test]
fn sibling_heading_replaces_top() {
    let tree = tree_after("Doc", &[(2, Some("X")), (2, Some("Y")), (2, Some("Z"))]);
    assert_eq!(names(&tree.children), vec!["X", "Y", "Z"]);
}

#[test]
fn empty_document_keeps_only_root() {
    let tree = tree_after("Only Title", &[]);
    assert_eq!(tree.text, "Only Title");
    assert!(tree.children.is_empty());
}
