use qwik_optimizer_oxc::types::{
    EmitMode, EntryStrategy, MinifyMode, TransformModule, TransformModulesOptions,
    TransformOutput,
};

#[test]
fn test_transform_output_default() {
    let output = TransformOutput::default();
    assert!(output.modules.is_empty());
    assert!(output.diagnostics.is_empty());
    assert!(!output.is_type_script);
    assert!(!output.is_jsx);
}

#[test]
fn test_transform_output_append() {
    let mut output1 = TransformOutput {
        modules: vec![TransformModule {
            path: "a.js".to_string(),
            is_entry: false,
            code: "".to_string(),
            map: None,
            segment: None,
            orig_path: None,
            order: 0,
        }],
        diagnostics: vec![],
        is_type_script: false,
        is_jsx: false,
    };
    let mut output2 = TransformOutput {
        modules: vec![TransformModule {
            path: "b.js".to_string(),
            is_entry: true,
            code: "".to_string(),
            map: None,
            segment: None,
            orig_path: None,
            order: 1,
        }],
        diagnostics: vec![],
        is_type_script: true,
        is_jsx: false,
    };
    output1.append(&mut output2);
    assert_eq!(output1.modules.len(), 2);
    assert!(output1.is_type_script);
}

#[test]
fn test_entry_strategy_default() {
    let strategy = EntryStrategy::default();
    assert!(matches!(strategy, EntryStrategy::Segment));
}

#[test]
fn test_emit_mode_default() {
    let mode = EmitMode::default();
    assert!(matches!(mode, EmitMode::Lib));
}

#[test]
fn test_minify_mode_default() {
    let mode = MinifyMode::default();
    assert!(matches!(mode, MinifyMode::Simplify));
}

#[test]
fn transform_modules_options_default_values() {
    let opts = TransformModulesOptions::default();
    assert_eq!(opts.src_dir, ".");
    assert!(opts.source_maps);
    assert!(!opts.transpile_ts);
    assert!(!opts.transpile_jsx);
    assert!(opts.input.is_empty());
    assert_eq!(opts.mode, EmitMode::Lib);
    assert_eq!(opts.entry_strategy, EntryStrategy::Segment);
    assert!(opts.is_server.is_none());
}

#[test]
fn append_moves_modules_in_order_and_ors_flags() {
    let module = |p: &str| TransformModule {
        path: p.to_string(),
        is_entry: false,
        code: String::new(),
        map: None,
        segment: None,
        orig_path: None,
        order: 0,
    };
    let mut a = TransformOutput {
        modules: vec![module("a.js")],
        diagnostics: vec![],
        is_type_script: false,
        is_jsx: true,
    };
    let mut b = TransformOutput {
        modules: vec![module("b.js"), module("c.js")],
        diagnostics: vec![],
        is_type_script: false,
        is_jsx: false,
    };
    a.append(&mut b);
    let paths: Vec<&str> = a.modules.iter().map(|m| m.path.as_str()).collect();
    assert_eq!(paths, vec!["a.js", "b.js", "c.js"]);
    assert!(b.modules.is_empty());
    assert!(a.is_jsx);
    assert!(!a.is_type_script);
}
