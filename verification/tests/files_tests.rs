use sitegen::files::get_files;
use sitegen::files::get_folders;
use sitegen::files::FsEntry;

fn dir(path: &str) -> FsEntry {
    FsEntry {
        rel_path: path.to_string(),
        is_dir: true,
        is_file: false,
    }
}

fn file(path: &str) -> FsEntry {
    FsEntry {
        rel_path: path.to_string(),
        is_dir: false,
        is_file: true,
    }
}

#[test]
fn folders_keep_only_top_level_directories() {
    let entries = vec![
        dir(""),
        dir("lesson1"),
        dir("lesson1/sub"),
        file("readme.md"),
        dir("lesson2"),
    ];
    assert_eq!(get_folders(&entries), vec!["lesson1", "lesson2"]);
}

#[test]
fn files_keep_every_file_anywhere() {
    let entries = vec![
        dir(""),
        dir("a"),
        file("a/one.txt"),
        file("two.txt"),
        dir("b"),
        file("b/three.txt"),
    ];
    let files = get_files(&entries);
    assert_eq!(files.len(), 3);
    assert!(files.contains(&"a/one.txt".to_string()));
    assert!(files.contains(&"two.txt".to_string()));
    assert!(files.contains(&"b/three.txt".to_string()));
}

#[test]
fn ordering_is_natural_not_lexicographic() {
    let entries = vec![dir("lesson10"), dir("lesson2"), dir("lesson1")];
    assert_eq!(
        get_folders(&entries),
        vec!["lesson1", "lesson2", "lesson10"]
    );
}

#[test]
fn file_ordering_is_natural() {
    let entries = vec![file("b1.c"), file("a10.c"), file("a2.c")];
    assert_eq!(get_files(&entries), vec!["a2.c", "a10.c", "b1.c"]);
}
