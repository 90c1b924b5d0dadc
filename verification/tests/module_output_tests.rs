use qwik_optimizer_oxc::module_output::{
    effective_dev_path, file_extension, is_component_hmr, output_path, relative_path,
    root_module_of, run_treeshaker, segment_analysis_of, segment_module_of, segment_order,
    segment_path, with_use_hmr, SegmentRecord,
};
use qwik_optimizer_oxc::source_path::PathData;
use qwik_optimizer_oxc::transform_code_options;
use qwik_optimizer_oxc::types::{
    CtxKind, EmitMode, EntryStrategy, MinifyMode, TransformCodeOptions, TransformModulesOptions,
};

fn reference_order(hash: &str) -> u64 {
    u64::from_str_radix(&hash[..std::cmp::min(8, hash.len())], 36).unwrap_or(0)
}

fn path_data(stem: &str, name: &str, rel: &str, abs: &str) -> PathData {
    PathData {
        file_stem: stem.to_string(),
        file_name: name.to_string(),
        rel_dir: rel.to_string(),
        abs_dir: abs.to_string(),
    }
}

fn options() -> TransformCodeOptions {
    transform_code_options(&TransformModulesOptions::default())
}

fn record(hash: &str, expr: Option<&str>, scoped: &[&str]) -> SegmentRecord {
    SegmentRecord {
        name: "s_x".to_string(),
        display_name: "test.tsx_x".to_string(),
        canonical_filename: "test.tsx_x_abc".to_string(),
        entry: Some("entry_a".to_string()),
        expr: expr.map(|s| s.to_string()),
        scoped_idents: scoped.iter().map(|s| s.to_string()).collect(),
        local_idents: Vec::new(),
        ctx_name: "component$".to_string(),
        ctx_kind: CtxKind::Function,
        origin: "src/test.tsx".to_string(),
        span: (4, 10),
        hash: hash.to_string(),
        is_inline: false,
        migrated_root_vars: Vec::new(),
        parent: Some("s_parent".to_string()),
        pending_parent_span: None,
        param_names: Some(vec!["props".to_string()]),
    }
}

#[test]
fn segment_order_matches_from_str_radix() {
    for h in [
        "LUXeXe0DQrg", "HTDRsvUbLiE", "abc12345678", "zzzzzzzz", "00000001", "a-b", "_x", "",
        "+1", "+", "-1", "AbC", "12345678901", "é", "zZ9aA0",
    ] {
        assert_eq!(segment_order(h), reference_order(h), "hash {h:?}");
    }
    assert_eq!(segment_order("00000010"), 36);
    assert_eq!(segment_order("zzzzzzzzzz"), 2821109907455);
}

#[test]
fn paths_and_extensions() {
    let root = path_data("index", "index.tsx", "", "/p/src");
    let nested = path_data("index", "index.tsx", "routes/a", "/p/src/routes/a");
    assert_eq!(relative_path(&root), "index.tsx");
    assert_eq!(relative_path(&nested), "routes/a/index.tsx");
    assert_eq!(file_extension("index.tsx"), "tsx");
    assert_eq!(file_extension("a.b.js"), "js");
    assert_eq!(file_extension("Makefile"), "Makefile");
    assert_eq!(segment_path("", "c_h", "js"), "c_h.js");
    assert_eq!(segment_path("routes/a", "c_h", "tsx"), "routes/a/c_h.tsx");
    assert_eq!(effective_dev_path(&nested, Some("/dev/x.tsx")), "/dev/x.tsx");
    assert_eq!(effective_dev_path(&nested, None), "/p/src/routes/a/index.tsx");
}

#[test]
fn root_output_paths() {
    let mut c = options();
    let nested = path_data("index", "index.tsx", "routes", "/p/src/routes");
    assert_eq!(output_path(&nested, "routes/index.tsx", false, &c), "routes/index.tsx");
    assert_eq!(output_path(&nested, "routes/index.tsx", true, &c), "routes/index.tsx");
    c.transpile_ts = true;
    c.transpile_jsx = true;
    assert_eq!(output_path(&nested, "routes/index.tsx", true, &c), "routes/index.js");
    c.preserve_filenames = true;
    assert_eq!(output_path(&nested, "routes/index.tsx", true, &c), "routes/index.tsx");
    let root = path_data("a", "a.ts", "", "/p/src");
    c.preserve_filenames = false;
    assert_eq!(output_path(&root, "a.ts", true, &c), "a.js");
}

#[test]
fn treeshaker_runs_only_for_client_split_minified_builds() {
    let mut c = options();
    assert!(!run_treeshaker(&c));
    c.is_server = false;
    c.mode = EmitMode::Prod;
    assert!(run_treeshaker(&c));
    c.minify = MinifyMode::Disabled;
    assert!(!run_treeshaker(&c));
    c.minify = MinifyMode::Simplify;
    c.entry_strategy = EntryStrategy::Hoist;
    assert!(!run_treeshaker(&c));
    c.entry_strategy = EntryStrategy::Smart;
    assert!(run_treeshaker(&c));
    c.is_server = true;
    assert!(!run_treeshaker(&c));
}

#[test]
fn hmr_helpers() {
    assert!(is_component_hmr(EmitMode::Hmr, "component$"));
    assert!(!is_component_hmr(EmitMode::Hmr, "useTask$"));
    assert!(!is_component_hmr(EmitMode::Dev, "component$"));
    let idents = vec!["a".to_string()];
    assert_eq!(with_use_hmr(&idents), vec!["a".to_string(), "_useHmr".to_string()]);
    let already = vec!["_useHmr".to_string(), "b".to_string()];
    assert_eq!(with_use_hmr(&already), already);
}

#[test]
fn segment_modules_from_records() {
    let rec = record("LUXeXe0DQrg", Some("() => x"), &["x", "y"]);
    let m = segment_module_of(&rec, "routes", "js", "code".to_string(), None);
    assert_eq!(m.path, "routes/test.tsx_x_abc.js");
    assert!(!m.is_entry);
    assert_eq!(m.code, "code");
    assert_eq!(m.order, reference_order("LUXeXe0DQrg"));
    assert!(m.orig_path.is_none());
    let a = m.segment.expect("segment metadata");
    assert_eq!(a.loc, (5, 11));
    assert!(a.captures);
    assert_eq!(a.capture_names, Some(vec!["x".to_string(), "y".to_string()]));
    assert_eq!(a.path, "routes");
    assert_eq!(a.extension, "js");
    assert_eq!(a.parent, Some("s_parent".to_string()));
    assert_eq!(a.param_names, Some(vec!["props".to_string()]));

    let noop = record("-noop", None, &["x"]);
    let n = segment_analysis_of(&noop, "", "tsx");
    assert!(!n.captures);
    assert!(n.capture_names.is_none());
    let mut own = record("abc", Some("() => 1"), &[]);
    own.entry = None;
    let m2 = segment_module_of(&own, "", "tsx", "c".to_string(), Some("map".to_string()));
    assert!(m2.is_entry);
    assert_eq!(m2.path, "test.tsx_x_abc.tsx");
    assert_eq!(m2.map, Some("map".to_string()));
    assert_eq!(m2.order, 13368);
    let a2 = m2.segment.expect("segment metadata");
    assert!(!a2.captures);
}

#[test]
fn root_modules() {
    let c = options();
    let d = path_data("a", "a.tsx", "", "/p");
    let m = root_module_of(&d, "a.tsx", false, &c, "code".to_string(), None);
    assert_eq!(m.path, "a.tsx");
    assert!(!m.is_entry);
    assert!(m.segment.is_none());
    assert_eq!(m.orig_path, Some("a.tsx".to_string()));
}
