use sitegen::content::get_collections;
use sitegen::content::get_content_info;
use sitegen::content::get_content_infos;
use sitegen::content::handlebars_escape;
use sitegen::content::mark_no_escape;
use sitegen::content::ContentMeta;

fn meta(file_name: &str, file_path: &str, title: &str, collections: &[&str]) -> ContentMeta {
    ContentMeta {
        file_name: file_name.to_string(),
        file_path: file_path.to_string(),
        title: title.to_string(),
        description: format!("about {title}"),
        template: "lesson_template.html".to_string(),
        collections: collections.iter().map(|s| s.to_string()).collect(),
    }
}

#[test]
fn content_info_builds_names_and_url() {
    let info = get_content_info(&meta(
        "003_Triangle.md",
        "lessons\\003_Triangle.md",
        "Triangle",
        &[],
    ));
    assert_eq!(info.file_name, "003_Triangle.md");
    assert_eq!(info.file_name_no_ext, "003_Triangle");
    assert_eq!(info.file_path, "lessons\\003_Triangle.md");
    assert_eq!(info.title, "Triangle");
    assert_eq!(info.url, "lessons/003_Triangle.html");
}

#[test]
fn content_info_without_extension_appends_html() {
    let info = get_content_info(&meta("README", "README", "Readme", &[]));
    assert_eq!(info.file_name_no_ext, "README");
    assert_eq!(info.url, "README.html");
}

#[test]
fn content_infos_keyed_by_file_name_in_order() {
    let contents = vec![
        meta("b.md", "b.md", "B", &[]),
        meta("a.md", "a.md", "A", &[]),
    ];
    let infos = get_content_infos(&contents);
    assert_eq!(infos.len(), 2);
    assert_eq!(infos[0].0, "b.md");
    assert_eq!(infos[0].1.title, "B");
    assert_eq!(infos[1].0, "a.md");
}

#[test]
fn collections_group_documents_in_order() {
    let contents = vec![
        meta("one.md", "one.md", "One", &["lessons"]),
        meta("two.md", "two.md", "Two", &["lessons", "featured"]),
        meta("three.md", "three.md", "Three", &["featured"]),
        meta("plain.md", "plain.md", "Plain", &[]),
    ];
    let groups = get_collections(&contents);
    assert_eq!(groups.len(), 2);
    assert_eq!(groups[0].0, "lessons");
    let lesson_titles: Vec<&str> = groups[0].1.iter().map(|i| i.title.as_str()).collect();
    assert_eq!(lesson_titles, vec!["One", "Two"]);
    assert_eq!(groups[1].0, "featured");
    let featured_titles: Vec<&str> = groups[1].1.iter().map(|i| i.title.as_str()).collect();
    assert_eq!(featured_titles, vec!["Two", "Three"]);
}

#[test]
fn escape_rewrites_html_characters() {
    assert_eq!(handlebars_escape("<b>&\"x\"</b>"), "&lt;b&gt;&amp;&quot;x&quot;&lt;/b&gt;");
    assert_eq!(handlebars_escape("a'b`c=d"), "a&#x27;b&#x60;c&#x3D;d");
    assert_eq!(handlebars_escape("plain"), "plain");
}

#[test]
fn marked_fragment_is_not_escaped() {
    let marked = mark_no_escape("<div>kept</div>");
    assert_eq!(marked, "<!-- NO_ESCAPE -->\n<div>kept</div>");
    assert_eq!(handlebars_escape(&marked), marked);
}
