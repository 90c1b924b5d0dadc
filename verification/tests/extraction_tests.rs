use qwik_optimizer_oxc::captures::IdentType;
use qwik_optimizer_oxc::collector::{global_collect, GlobalCollect};
use qwik_optimizer_oxc::extraction::{
    exit_program_step, marker_call_step, CallRewrite, ExtractContext, ExtractState, FirstArg, MarkerCall,
};
use qwik_optimizer_oxc::hash::{register_context_name, SegmentNames};
use qwik_optimizer_oxc::segment_rules::ImportNeeds;
use qwik_optimizer_oxc::types::{CtxKind, EmitMode, EntryStrategy};

const SYMBOL: &str = "test_component_LUXeXe0DQrg";

fn empty_state() -> ExtractState {
    ExtractState {
        segment_names: SegmentNames::new(),
        segments: Vec::new(),
        extra_top_items: Vec::new(),
        ref_assignments: Vec::new(),
        diagnostics: Vec::new(),
        needs: ImportNeeds {
            qrl: false,
            inlined_qrl: false,
            noop_qrl: false,
            jsx_sorted: false,
            jsx_split: false,
            fragment: false,
            fn_signal: false,
            wrap_prop: false,
        },
        wrappers: Vec::new(),
    }
}

fn strings(v: &[&str]) -> Vec<String> {
    v.iter().map(|s| s.to_string()).collect()
}

/// `component$(() => x)`, with `x` a `const` of the enclosing scope.
fn component_call(first_arg: FirstArg, used: &[&str]) -> MarkerCall {
    MarkerCall {
        ctx_name: "component$".to_string(),
        ctx_kind: CtxKind::Function,
        is_sync: false,
        wrapper_name: "componentQrl".to_string(),
        first_arg,
        used_idents: strings(used),
        param_idents: Vec::new(),
        param_names: None,
        expr_code: Some("() => x".to_string()),
        span: (10, 30),
        parent_span: None,
        pushed_ctx_name: true,
        at_root: true,
        in_jsx_attr: false,
    }
}

struct Fixture {
    stack: Vec<String>,
    decls: Vec<(String, IdentType)>,
    global: GlobalCollect,
    sources: Vec<(String, String)>,
    strip: Vec<String>,
}

fn fixture(decls: Vec<(String, IdentType)>, sources: Vec<(String, String)>) -> Fixture {
    Fixture {
        stack: strings(&["test", "component"]),
        decls,
        global: global_collect(&Vec::new()),
        sources,
        strip: Vec::new(),
    }
}

fn core_sources() -> Vec<(String, String)> {
    vec![("component$".to_string(), "@qwik.dev/core".to_string())]
}

fn context<'a>(f: &'a Fixture, mode: EmitMode, strategy: EntryStrategy) -> ExtractContext<'a> {
    ExtractContext {
        stack_ctxt: f.stack.as_slice(),
        decls: &f.decls,
        global: &f.global,
        marker_fn_sources: &f.sources,
        scope: None,
        rel_path: "test.tsx",
        file_name: "test.tsx",
        mode,
        entry_strategy: strategy,
        strip_ctx_name: &f.strip,
        strip_event_handlers: false,
        explicit_extensions: false,
        extension: "js",
    }
}

#[test]
fn segment_strategy_replaces_call_and_hoists_qrl() {
    let f = fixture(vec![("x".to_string(), IdentType::Const)], core_sources());
    let ctx = context(&f, EmitMode::Test, EntryStrategy::Segment);
    let mut state = empty_state();
    let action = marker_call_step(&mut state, &ctx, &component_call(FirstArg::Function, &["x"]));
    match action {
        CallRewrite::Replace(code) => assert_eq!(
            code,
            format!("/*#__PURE__*/ componentQrl(q_{}.w([x]))", SYMBOL)
        ),
        _ => panic!("expected a replacement"),
    }
    assert!(state.diagnostics.is_empty());
    assert_eq!(state.segments.len(), 1);
    assert_eq!(state.segments[0].name, SYMBOL);
    assert_eq!(state.segments[0].canonical_filename, format!("test.tsx_{}", SYMBOL));
    assert_eq!(state.segments[0].scoped_idents, vec!["x".to_string()]);
    assert!(!state.segments[0].is_inline);
    assert_eq!(state.extra_top_items.len(), 1);
    assert_eq!(state.extra_top_items[0].name, format!("q_{}", SYMBOL));
    assert_eq!(
        state.extra_top_items[0].rhs_code,
        format!("/*#__PURE__*/ qrl(()=>import(\"./test.tsx_{}\"), \"{}\")", SYMBOL, SYMBOL)
    );
    assert!(state.needs.qrl);
    assert_eq!(state.wrappers, vec!["componentQrl".to_string()]);

    let edits = exit_program_step(&state, &ctx, "@qwik.dev/core");
    assert_eq!(
        edits.imports,
        vec![
            "import { componentQrl } from \"@qwik.dev/core\";".to_string(),
            "import { qrl } from \"@qwik.dev/core\";".to_string(),
        ]
    );
    assert_eq!(
        edits.hoisted,
        vec![format!(
            "const q_{} = /*#__PURE__*/ qrl(()=>import(\"./test.tsx_{}\"), \"{}\");",
            SYMBOL, SYMBOL, SYMBOL
        )]
    );
}

#[test]
fn second_call_gets_counter_suffix() {
    let f = fixture(Vec::new(), core_sources());
    let ctx = context(&f, EmitMode::Test, EntryStrategy::Segment);
    let mut state = empty_state();
    marker_call_step(&mut state, &ctx, &component_call(FirstArg::Function, &[]));
    marker_call_step(&mut state, &ctx, &component_call(FirstArg::Function, &[]));
    assert_eq!(state.segments.len(), 2);
    assert_ne!(state.segments[0].name, state.segments[1].name);
    assert!(state.segments[1].display_name.starts_with("test.tsx_test_component_1"));
}

#[test]
fn inline_strategy_keeps_call_with_captures() {
    let f = fixture(vec![("x".to_string(), IdentType::Const)], core_sources());
    let ctx = context(&f, EmitMode::Test, EntryStrategy::Inline);
    let mut state = empty_state();
    let action = marker_call_step(&mut state, &ctx, &component_call(FirstArg::Function, &["x"]));
    match action {
        CallRewrite::Inline { callee, symbol, captures } => {
            assert_eq!(callee, "componentQrl");
            assert_eq!(symbol, SYMBOL);
            assert_eq!(captures, Some(vec!["x".to_string()]));
        },
        _ => panic!("expected an inlined call"),
    }
    assert!(state.needs.inlined_qrl);
    assert!(!state.needs.qrl);
    assert!(state.extra_top_items.is_empty());
    assert!(state.segments[0].is_inline);
}

#[test]
fn hoist_strategy_registers_body() {
    let f = fixture(Vec::new(), core_sources());
    let ctx = context(&f, EmitMode::Test, EntryStrategy::Hoist);
    let mut state = empty_state();
    let action = marker_call_step(&mut state, &ctx, &component_call(FirstArg::Function, &[]));
    match action {
        CallRewrite::Replace(code) => assert_eq!(code, format!("componentQrl(q_{})", SYMBOL)),
        _ => panic!("expected a replacement"),
    }
    assert_eq!(state.ref_assignments, vec![format!("q_{}.s(() => x);", SYMBOL)]);
    assert_eq!(state.extra_top_items[0].rhs_code, format!("/*#__PURE__*/ _noopQrl(\"{}\")", SYMBOL));
    assert!(state.needs.noop_qrl);
    let edits = exit_program_step(&state, &ctx, "@qwik.dev/core");
    assert_eq!(edits.hoisted.len(), 2);
    assert_eq!(edits.hoisted[1], format!("q_{}.s(() => x);", SYMBOL));
}

#[test]
fn sync_call_is_renamed() {
    let f = fixture(Vec::new(), vec![("sync$".to_string(), "@qwik.dev/core".to_string())]);
    let ctx = context(&f, EmitMode::Test, EntryStrategy::Segment);
    let mut state = empty_state();
    let mut call = component_call(FirstArg::Function, &[]);
    call.ctx_name = "sync$".to_string();
    call.wrapper_name = "syncQrl".to_string();
    call.is_sync = true;
    let action = marker_call_step(&mut state, &ctx, &call);
    match action {
        CallRewrite::Rename(name) => assert_eq!(name, "_qrlSync"),
        _ => panic!("expected a rename"),
    }
    assert!(state.wrappers.is_empty());
    assert!(state.segments[0].is_inline);
}

#[test]
fn stripped_marker_becomes_noop() {
    let mut f = fixture(Vec::new(), core_sources());
    f.strip = strings(&["component"]);
    let ctx = context(&f, EmitMode::Test, EntryStrategy::Segment);
    let mut state = empty_state();
    let action = marker_call_step(&mut state, &ctx, &component_call(FirstArg::Function, &[]));
    match action {
        CallRewrite::Noop { callee, symbol } => {
            assert_eq!(callee, "_noopQrl");
            assert_eq!(symbol, SYMBOL);
        },
        _ => panic!("expected a noop"),
    }
    assert!(state.needs.noop_qrl);
    assert!(state.segments[0].expr.is_none());
}

#[test]
fn missing_wrapper_export_reports_c05() {
    let f = fixture(Vec::new(), Vec::new());
    let ctx = context(&f, EmitMode::Test, EntryStrategy::Segment);
    let mut state = empty_state();
    let action = marker_call_step(&mut state, &ctx, &component_call(FirstArg::Function, &[]));
    assert!(matches!(action, CallRewrite::Keep));
    assert!(state.segments.is_empty());
    assert_eq!(state.diagnostics.len(), 1);
    assert_eq!(state.diagnostics[0].code, Some("C05".to_string()));
    assert_eq!(
        state.diagnostics[0].message,
        "Found 'component$' but did not find the corresponding 'componentQrl' exported in the same file. Please check that it is exported and spelled correctly"
    );
}

#[test]
fn non_function_capture_reports_c03() {
    let f = fixture(vec![("x".to_string(), IdentType::Const)], core_sources());
    let ctx = context(&f, EmitMode::Test, EntryStrategy::Segment);
    let mut state = empty_state();
    marker_call_step(&mut state, &ctx, &component_call(FirstArg::Other, &["x"]));
    assert_eq!(state.diagnostics.len(), 1);
    assert_eq!(state.diagnostics[0].code, Some("C03".to_string()));
    assert_eq!(
        state.diagnostics[0].message,
        "Qrl($) scope is not a function, but it's capturing local identifiers: x"
    );
    assert!(state.segments[0].scoped_idents.is_empty());
}

#[test]
fn function_reference_reports_c02() {
    let f = fixture(vec![("foo".to_string(), IdentType::Fn)], core_sources());
    let ctx = context(&f, EmitMode::Test, EntryStrategy::Segment);
    let mut state = empty_state();
    marker_call_step(&mut state, &ctx, &component_call(FirstArg::Function, &["foo"]));
    assert_eq!(state.diagnostics.len(), 1);
    assert_eq!(state.diagnostics[0].code, Some("C02".to_string()));
    assert_eq!(
        state.diagnostics[0].message,
        "Reference to identifier 'foo' can not be used inside a Qrl($) scope because it's a function"
    );
}

#[test]
fn jsx_attribute_value_becomes_a_bare_qrl() {
    let mut f = fixture(vec![("count".to_string(), IdentType::Let)], Vec::new());
    f.stack = strings(&["App", "button", "q-e:click"]);
    let ctx = context(&f, EmitMode::Test, EntryStrategy::Segment);
    let mut fresh = SegmentNames::new();
    let names = register_context_name(
        &f.stack, &mut fresh, None, "test.tsx", "test.tsx", &EmitMode::Test, None, None, None,
    );
    let mut state = empty_state();
    let mut call = component_call(FirstArg::Function, &["count"]);
    call.ctx_name = "onClick$".to_string();
    call.ctx_kind = CtxKind::EventHandler;
    call.wrapper_name = "onClickQrl".to_string();
    call.expr_code = Some("() => count++".to_string());
    call.in_jsx_attr = true;
    let action = marker_call_step(&mut state, &ctx, &call);
    match action {
        CallRewrite::Replace(code) => assert_eq!(code, format!("q_{}.w([count])", names.symbol_name)),
        _ => panic!("expected a replacement"),
    }
    assert!(state.diagnostics.is_empty());
    assert_eq!(state.segments[0].name, names.symbol_name);
    assert_eq!(state.segments[0].ctx_name, "onClick$");
    assert_eq!(state.wrappers, vec!["onClickQrl".to_string()]);
}

#[test]
fn jsx_attribute_value_inlined_with_helper() {
    let f = fixture(Vec::new(), Vec::new());
    let ctx = context(&f, EmitMode::Dev, EntryStrategy::Inline);
    let mut state = empty_state();
    let mut call = component_call(FirstArg::Function, &[]);
    call.ctx_name = "onClick$".to_string();
    call.ctx_kind = CtxKind::EventHandler;
    call.wrapper_name = "onClickQrl".to_string();
    call.in_jsx_attr = true;
    let action = marker_call_step(&mut state, &ctx, &call);
    match action {
        CallRewrite::Inline { callee, captures, .. } => {
            assert_eq!(callee, "inlinedQrlDEV");
            assert_eq!(captures, None);
        },
        _ => panic!("expected an inlined value"),
    }
    assert!(state.needs.inlined_qrl);
}
