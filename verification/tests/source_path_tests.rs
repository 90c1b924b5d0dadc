use std::path::PathBuf;

use qwik_optimizer_oxc::source_path::{PathError, SourcePath};

#[test]
fn test_path_data_nested() {
    let result = SourcePath("src/routes/index.tsx").path_data("/project").unwrap();
    assert_eq!(result.file_stem, "index");
    assert_eq!(result.file_name, "index.tsx");
    assert_eq!(PathBuf::from(&result.rel_dir), PathBuf::from("src/routes"));
    assert_eq!(PathBuf::from(&result.abs_dir), PathBuf::from("/project/src/routes"));
}

#[test]
fn test_path_data_root_level() {
    let result = SourcePath("component.tsx").path_data("/project").unwrap();
    assert_eq!(result.file_stem, "component");
    assert_eq!(result.file_name, "component.tsx");
    assert_eq!(PathBuf::from(&result.rel_dir), PathBuf::new());
    assert_eq!(PathBuf::from(&result.abs_dir), PathBuf::from("/project"));
}

#[test]
fn test_path_data_one_level() {
    let result = SourcePath("routes/index.ts").path_data("/app").unwrap();
    assert_eq!(result.file_stem, "index");
    assert_eq!(result.file_name, "index.ts");
    assert_eq!(PathBuf::from(&result.rel_dir), PathBuf::from("routes"));
    assert_eq!(PathBuf::from(&result.abs_dir), PathBuf::from("/app/routes"));
}

#[test]
fn path_data_without_file_name_is_an_error() {
    let result = SourcePath("..").path_data("/project");
    assert_eq!(result, Err(PathError::NoFileName("..".to_string())));
    assert!(SourcePath("").path_data("/project").is_err());
}

#[test]
fn test_source_type_tsx() {
    let p = SourcePath("app.tsx");
    assert!(p.source_type().is_typescript());
    assert!(p.source_type().is_jsx());
}

#[test]
fn test_source_type_ts() {
    let p = SourcePath("app.ts");
    assert!(p.source_type().is_typescript());
    assert!(p.source_type().is_jsx());
}

#[test]
fn test_source_type_jsx() {
    let p = SourcePath("app.jsx");
    assert!(!p.source_type().is_typescript());
    assert!(p.source_type().is_jsx());
}

#[test]
fn test_source_type_js_variants() {
    for ext in &["app.js", "app.mjs", "app.cjs"] {
        let p = SourcePath(ext);
        assert!(!p.source_type().is_typescript());
    }
}

#[test]
fn test_source_type_unknown_defaults_to_mjs() {
    let p = SourcePath("app.txt");
    assert!(!p.source_type().is_typescript());
}

#[test]
fn test_output_extension_tsx_both_transpile() {
    assert_eq!(SourcePath("test.tsx").output_extension(true, true), "js");
}

#[test]
fn test_output_extension_tsx_ts_only() {
    assert_eq!(SourcePath("test.tsx").output_extension(true, false), "jsx");
}

#[test]
fn test_output_extension_tsx_jsx_only() {
    assert_eq!(SourcePath("test.tsx").output_extension(false, true), "ts");
}

#[test]
fn test_output_extension_tsx_no_transpile() {
    assert_eq!(SourcePath("test.tsx").output_extension(false, false), "tsx");
}

#[test]
fn test_output_extension_ts_transpile() {
    assert_eq!(SourcePath("test.ts").output_extension(true, true), "js");
}

#[test]
fn test_output_extension_ts_no_transpile() {
    assert_eq!(SourcePath("test.ts").output_extension(false, true), "ts");
}

#[test]
fn test_output_extension_jsx_transpile() {
    assert_eq!(SourcePath("test.jsx").output_extension(false, true), "js");
}

#[test]
fn test_output_extension_js_unchanged() {
    assert_eq!(SourcePath("test.js").output_extension(true, true), "js");
    assert_eq!(SourcePath("test.js").output_extension(false, false), "js");
}

#[test]
fn output_extension_module_kinds_and_unknown() {
    assert_eq!(SourcePath("a.mjs").output_extension(true, true), "mjs");
    assert_eq!(SourcePath("a.cjs").output_extension(false, false), "cjs");
    assert_eq!(SourcePath("a.txt").output_extension(false, false), "js");
    assert_eq!(SourcePath("noext").output_extension(false, false), "js");
    assert_eq!(SourcePath("dir.v2/a.jsx").output_extension(false, false), "jsx");
}

#[test]
fn as_str_returns_inner_path() {
    assert_eq!(SourcePath("src/a.ts").as_str(), "src/a.ts");
    let p: SourcePath = SourcePath::from("x.js");
    assert_eq!(p.as_str(), "x.js");
}
