use sitegen::lessons::file_name_part;
use sitegen::lessons::get_agnostic_lesson_code;
use sitegen::lessons::get_code_assets_lesson_needs;
use sitegen::lessons::get_specific_lesson_code;
use sitegen::lessons::lesson_diff_sources;
use sitegen::lessons::lesson_zip_plan;
use sitegen::lessons::LessonCode;
use sitegen::lessons::LessonInput;

fn strings(items: &[&str]) -> Vec<String> {
    items.iter().map(|s| s.to_string()).collect()
}

#[test]
fn file_name_is_last_component() {
    assert_eq!(file_name_part("Assets/img.png"), "img.png");
    assert_eq!(file_name_part("plain.c"), "plain.c");
    assert_eq!(file_name_part("a/b/c.txt"), "c.txt");
    assert_eq!(file_name_part("dir/"), "");
}

#[test]
fn assets_filtered_by_mention_in_source() {
    let assets = strings(&["Assets/cat.png", "Assets/dog.png", "Assets/bird.png"]);
    let src = Some("load(\"cat.png\"); load(\"bird.png\");".to_string());
    assert_eq!(
        get_code_assets_lesson_needs(&assets, &src),
        strings(&["Assets/cat.png", "Assets/bird.png"])
    );
}

#[test]
fn unreadable_source_needs_no_assets() {
    let assets = strings(&["Assets/cat.png"]);
    assert!(get_code_assets_lesson_needs(&assets, &None).is_empty());
}

#[test]
fn lessons_are_built_and_naturally_sorted() {
    let inputs = vec![
        LessonInput {
            name: "010_Later".to_string(),
            c_source: None,
            files: strings(&["010_Later.c"]),
        },
        LessonInput {
            name: "002_Early".to_string(),
            c_source: Some("uses cat.png".to_string()),
            files: strings(&["002_Early.c", "notes.md"]),
        },
    ];
    let assets = strings(&["Assets/cat.png", "Assets/dog.png"]);
    let lessons = get_specific_lesson_code("code/source", &assets, &inputs);
    assert_eq!(lessons.len(), 2);
    assert_eq!(lessons[0].lesson_name, "002_Early");
    assert_eq!(lessons[0].lesson_code_directory, "code/source/002_Early");
    assert_eq!(lessons[0].code_assets, strings(&["Assets/cat.png"]));
    assert_eq!(lessons[0].code_files, strings(&["002_Early.c", "notes.md"]));
    assert_eq!(lessons[1].lesson_name, "010_Later");
    assert!(lessons[1].code_assets.is_empty());
}

#[test]
fn agnostic_files_are_prefixed() {
    let files = strings(&["CMakeLists.txt", "toolchain.cmake"]);
    assert_eq!(
        get_agnostic_lesson_code("CMake", &files),
        strings(&["CMake/CMakeLists.txt", "CMake/toolchain.cmake"])
    );
}

#[test]
fn zip_plan_lays_out_shared_then_own_files() {
    let lesson = LessonCode {
        lesson_name: "003_Triangle".to_string(),
        lesson_code_directory: "code/source/003_Triangle".to_string(),
        code_files: strings(&["003_Triangle.c"]),
        code_assets: strings(&["Assets/tex.png"]),
    };
    let agnostic = strings(&["CMake/CMakeLists.txt"]);
    let plan = lesson_zip_plan("code", &lesson, &agnostic);
    assert_eq!(plan.zip_name, "003_Triangle.zip");
    let got: Vec<(String, String)> = plan
        .entries
        .iter()
        .map(|e| (e.archive_path.clone(), e.source_path.clone()))
        .collect();
    assert_eq!(
        got,
        vec![
            ("Assets/tex.png".to_string(), "code/Assets/tex.png".to_string()),
            (
                "CMake/CMakeLists.txt".to_string(),
                "code/CMake/CMakeLists.txt".to_string()
            ),
            (
                "003_Triangle.c".to_string(),
                "code/source/003_Triangle/003_Triangle.c".to_string()
            ),
        ]
    );
}

#[test]
fn diff_sources_only_between_consecutive_lesson_pages() {
    let stems = strings(&["index", "003_Triangle", "004_Buffers"]);
    let templates = strings(&[
        "index_template.html",
        "lesson_template.html",
        "lesson_template.html",
    ]);
    assert_eq!(lesson_diff_sources("code", &stems, &templates, 0), None);
    assert_eq!(lesson_diff_sources("code", &stems, &templates, 1), None);
    assert_eq!(
        lesson_diff_sources("code", &stems, &templates, 2),
        Some((
            "code/003_Triangle/003_Triangle.c".to_string(),
            "code/004_Buffers/004_Buffers.c".to_string()
        ))
    );
}
