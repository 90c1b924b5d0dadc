use qwik_optimizer_oxc::add_side_effect::{
    normalize_path, side_effect_import_sources, side_effect_import_stmt, starts_with_path,
};

fn strings(v: &[&str]) -> Vec<String> {
    v.iter().map(|s| s.to_string()).collect()
}

#[test]
fn test_inject_relative_import_within_src_dir() {
    // module `export const x = 1;` importing "./utils" from /project/src
    let imports = strings(&["./utils"]);
    let existing: Vec<String> = Vec::new();
    let injected = side_effect_import_sources(&imports, &existing, "/project/src", "/project/src");
    assert_eq!(injected, vec!["./utils"]);
    assert_eq!(side_effect_import_stmt(&injected[0]), r#"import "./utils";"#);
}

#[test]
fn test_no_injection_for_non_relative_import() {
    let imports = strings(&["@qwik.dev/core"]);
    let existing: Vec<String> = Vec::new();
    let injected = side_effect_import_sources(&imports, &existing, "/project/src", "/project/src");
    assert!(injected.is_empty());
}

#[test]
fn no_injection_outside_src_dir_duplicates_or_existing() {
    let imports = strings(&["../../outside", "./a", "./a", "./b", "../src/c"]);
    let existing = strings(&["./b"]);
    let injected = side_effect_import_sources(&imports, &existing, "/project/src", "/project/src");
    assert_eq!(injected, vec!["./a", "../src/c"]);
}

#[test]
fn normalize_path_drops_dots() {
    assert_eq!(normalize_path("/a/./b/../c"), "/a/c");
    assert_eq!(normalize_path("../x/../../y"), "../../y");
    assert_eq!(normalize_path("a/b/.."), "a");
    assert!(starts_with_path("/project/src/util", "/project/src"));
    assert!(!starts_with_path("/project/srcx", "/project/src"));
    assert!(starts_with_path("/project/src", "/project/src"));
}
