use qwik_optimizer_oxc::collector::GlobalCollect;
use qwik_optimizer_oxc::file_transform::{transform_code, TreeOutput};
use qwik_optimizer_oxc::module_output::SegmentRecord;
use qwik_optimizer_oxc::source_path::PathData;
use qwik_optimizer_oxc::types::{
    CtxKind, Diagnostic, DiagnosticCategory, EmitMode, EntryStrategy, TransformCodeOptions,
    TransformModule, TransformModuleInput, TransformModulesOptions,
};
use qwik_optimizer_oxc::{sort_modules_by_order, transform_code_options, transform_modules};

fn make_input(code: &str, path: &str) -> TransformModuleInput {
    TransformModuleInput { code: code.to_string(), path: path.to_string(), dev_path: None }
}

fn opts_with_inputs(src_dir: &str, inputs: Vec<TransformModuleInput>) -> TransformModulesOptions {
    TransformModulesOptions {
        src_dir: src_dir.to_string(),
        input: inputs,
        source_maps: false,
        ..TransformModulesOptions::default()
    }
}

fn module(path: &str, order: u64) -> TransformModule {
    TransformModule {
        path: path.to_string(),
        is_entry: false,
        code: String::new(),
        map: None,
        segment: None,
        orig_path: None,
        order,
    }
}

#[test]
fn test_transform_empty_input() {
    let opts = opts_with_inputs("/project", vec![]);
    let result = transform_modules(opts, |_: &TransformCodeOptions, _: &TransformModuleInput, _: &PathData| {
        panic!("no input to transform")
    })
    .expect("an empty input always gives an output");
    assert_eq!(result.modules.len(), 0);
}

#[test]
fn per_file_options_fill_defaults() {
    let c = transform_code_options(&opts_with_inputs("/project", vec![]));
    assert_eq!(c.src_dir, "/project");
    assert_eq!(c.core_module, "@qwik.dev/core");
    assert!(c.strip_exports.is_empty());
    assert!(c.strip_ctx_name.is_empty());
    assert!(c.reg_ctx_name.is_empty());
    assert!(c.is_server);
    assert!(!c.source_maps);
    let mut o = opts_with_inputs("/p", vec![]);
    o.core_module = Some("@builder.io/qwik".to_string());
    o.strip_exports = Some(vec!["onGet".to_string()]);
    o.is_server = Some(false);
    o.entry_strategy = EntryStrategy::Hoist;
    let c = transform_code_options(&o);
    assert_eq!(c.core_module, "@builder.io/qwik");
    assert_eq!(c.strip_exports, vec!["onGet".to_string()]);
    assert!(!c.is_server);
    assert_eq!(c.entry_strategy, EntryStrategy::Hoist);
}

fn root_only(code: &str, ts: bool) -> TreeOutput {
    TreeOutput {
        is_type_script: ts,
        is_jsx: false,
        root_code: code.to_string(),
        root_map: None,
        segments: vec![],
        extra_top_items: vec![],
        collect: GlobalCollect::new_empty(),
        diagnostics: vec![],
    }
}

fn record(name: &str, expr: Option<&str>, is_inline: bool) -> SegmentRecord {
    SegmentRecord {
        name: name.to_string(),
        display_name: format!("test.js_{}", name),
        canonical_filename: format!("test.js_{}", name),
        entry: None,
        expr: expr.map(|e| e.to_string()),
        scoped_idents: vec![],
        local_idents: vec![],
        ctx_name: "$".to_string(),
        ctx_kind: CtxKind::Function,
        origin: "test.js".to_string(),
        span: (3, 9),
        hash: "abcdefghijk".to_string(),
        is_inline,
        migrated_root_vars: vec![],
        parent: None,
        pending_parent_span: None,
        param_names: None,
    }
}

#[test]
fn outputs_merge_in_input_order_and_sort_by_order() {
    let opts = opts_with_inputs(
        "/project",
        vec![make_input("a", "a.tsx"), make_input("b", "b.js"), make_input("c", "c.js")],
    );
    let result = transform_modules(opts, |c: &TransformCodeOptions, i: &TransformModuleInput, d: &PathData| {
        assert_eq!(c.core_module, "@qwik.dev/core");
        assert_eq!(d.file_name, i.path);
        Ok(root_only(&i.code, i.path.ends_with(".tsx")))
    })
    .expect("every output can be built");
    let mut paths: Vec<&str> = result.modules.iter().map(|m| m.path.as_str()).collect();
    assert!(result.modules.windows(2).all(|w| w[0].order <= w[1].order));
    paths.sort();
    assert_eq!(paths, vec!["a.tsx", "b.js", "c.js"]);
    assert!(result.is_type_script);
    assert!(!result.is_jsx);
}

#[test]
fn a_file_gives_its_root_module_then_its_segment_modules() {
    let mut config = transform_code_options(&opts_with_inputs("/project", vec![]));
    config.transpile_ts = true;
    config.transpile_jsx = true;
    let input = make_input("src", "test.js");
    let stages = |_: &TransformCodeOptions, _: &TransformModuleInput, _: &PathData| {
        let mut t = root_only("const x = 1;", false);
        t.segments = vec![
            record("s_a", Some("() => 42"), false),
            record("s_inline", Some("() => 1"), true),
            record("s_noop", None, false),
        ];
        Ok(t)
    };
    let out = transform_code(&config, &input, &stages).expect("buildable");
    assert_eq!(out.modules.len(), 3);
    let root = &out.modules[0];
    assert_eq!(root.path, "test.js");
    assert_eq!(root.code, "const x = 1;");
    assert_eq!(root.orig_path, Some("test.js".to_string()));
    assert!(root.segment.is_none());
    let seg = &out.modules[1];
    assert_eq!(seg.path, "test.js_s_a.js");
    assert!(seg.code.contains("export const s_a = () => 42"));
    assert!(seg.is_entry);
    let a = seg.segment.as_ref().unwrap();
    assert_eq!(a.name, "s_a");
    assert_eq!(a.loc, (4, 10));
    let noop = &out.modules[2];
    assert_eq!(noop.path, "test.js_s_noop.js");
    assert!(noop.code.contains("export const s_noop = null"));
}

#[test]
fn a_failed_parse_gives_its_diagnostics_only() {
    let config = transform_code_options(&opts_with_inputs("/project", vec![]));
    let input = make_input("@@@", "bad.js");
    let stages = |_: &TransformCodeOptions, i: &TransformModuleInput, _: &PathData| {
        Err(vec![Diagnostic {
            scope: "optimizer".to_string(),
            category: DiagnosticCategory::SourceError,
            code: None,
            file: i.path.clone(),
            message: "unexpected token".to_string(),
            highlights: None,
            suggestions: None,
        }])
    };
    let out = transform_code(&config, &input, &stages).expect("a parse failure has an output");
    assert!(out.modules.is_empty());
    assert_eq!(out.diagnostics.len(), 1);
    assert_eq!(out.diagnostics[0].message, "unexpected token");
    assert!(!out.is_type_script);
}

#[test]
fn a_path_without_a_file_name_gives_the_empty_output() {
    let config = transform_code_options(&opts_with_inputs("/project", vec![]));
    let input = make_input("x", "..");
    let stages = |_: &TransformCodeOptions, _: &TransformModuleInput, _: &PathData| -> Result<TreeOutput, Vec<Diagnostic>> {
        panic!("the tree stages do not run")
    };
    let out = transform_code(&config, &input, &stages).expect("always an output");
    assert!(out.modules.is_empty());
    assert!(out.diagnostics.is_empty());
}

#[test]
fn hmr_component_segments_get_use_hmr() {
    let mut config = transform_code_options(&opts_with_inputs("/project", vec![]));
    config.mode = EmitMode::Hmr;
    let input = TransformModuleInput {
        code: String::new(),
        path: "test.js".to_string(),
        dev_path: Some("/dev/test.js".to_string()),
    };
    let stages = |_: &TransformCodeOptions, _: &TransformModuleInput, _: &PathData| {
        let mut t = root_only("", false);
        let mut r = record("s_c", Some("() => { return 1; }"), false);
        r.ctx_name = "component$".to_string();
        t.segments = vec![r];
        Ok(t)
    };
    let out = transform_code(&config, &input, &stages).expect("buildable");
    let code = &out.modules[1].code;
    assert!(code.contains("_useHmr(\"/dev/test.js\")"));
    assert!(code.contains("import { _useHmr } from \"@qwik.dev/core\""));
}

#[test]
fn sort_is_by_order_and_keeps_all_modules() {
    let sorted = sort_modules_by_order(vec![module("x", 5), module("y", 1), module("z", 5), module("w", 0)]);
    let orders: Vec<u64> = sorted.iter().map(|m| m.order).collect();
    assert_eq!(orders, vec![0, 1, 5, 5]);
    let mut paths: Vec<&str> = sorted.iter().map(|m| m.path.as_str()).collect();
    paths.sort();
    assert_eq!(paths, vec!["w", "x", "y", "z"]);
}

#[test]
fn default_core_module_and_server_flag_change_nothing() {
    let stages = |c: &TransformCodeOptions, _: &TransformModuleInput, _: &PathData| {
        Ok(root_only(&format!("// {} {}", c.core_module, c.is_server), false))
    };
    let inputs = || vec![make_input("a", "a.js"), make_input("b", "dir/b.ts")];
    let c1 = opts_with_inputs("/project", inputs());
    let mut c2 = opts_with_inputs("/project", inputs());
    c2.core_module = Some("@qwik.dev/core".to_string());
    c2.is_server = Some(true);
    let r1 = transform_modules(c1, stages).expect("root-only files always build");
    let r2 = transform_modules(c2, stages).expect("root-only files always build");
    assert_eq!(r1.modules.len(), r2.modules.len());
    for (a, b) in r1.modules.iter().zip(r2.modules.iter()) {
        assert_eq!(a.path, b.path);
        assert_eq!(a.code, b.code);
        assert_eq!(a.order, b.order);
        assert_eq!(a.is_entry, b.is_entry);
    }
    assert!(r1.modules.iter().any(|m| m.code == "// @qwik.dev/core true"));
    assert_eq!(r1.is_type_script, r2.is_type_script);
}

#[test]
fn root_module_order_is_a_function_of_its_path() {
    let stages = |_: &TransformCodeOptions, _: &TransformModuleInput, _: &PathData| Ok(root_only("x", false));
    let r1 = transform_modules(opts_with_inputs("/p", vec![make_input("x", "a.js")]), stages).unwrap();
    let r2 = transform_modules(opts_with_inputs("/q", vec![make_input("y", "a.js")]), stages).unwrap();
    assert_eq!(r1.modules[0].path, r2.modules[0].path);
    assert_eq!(r1.modules[0].order, r2.modules[0].order);
}
