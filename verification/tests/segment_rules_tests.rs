use qwik_optimizer_oxc::item_order::HoistedConst;
use qwik_optimizer_oxc::module_output::SegmentRecord;
use qwik_optimizer_oxc::segment_rules::{
    find_wrapper_source, is_inline_mode, patch_segment_parents, should_emit_segment,
};
use qwik_optimizer_oxc::types::{CtxKind, EmitMode, EntryStrategy};

fn strings(v: &[&str]) -> Vec<String> {
    v.iter().map(|s| s.to_string()).collect()
}

fn segment(name: &str, start: u32, pending: Option<u32>) -> SegmentRecord {
    SegmentRecord {
        name: name.to_string(),
        display_name: name.to_string(),
        canonical_filename: name.to_string(),
        entry: None,
        expr: None,
        scoped_idents: Vec::new(),
        local_idents: Vec::new(),
        ctx_name: "component$".to_string(),
        ctx_kind: CtxKind::Function,
        origin: "test.tsx".to_string(),
        span: (start, start + 10),
        hash: "abc12345678".to_string(),
        is_inline: false,
        migrated_root_vars: Vec::new(),
        parent: None,
        pending_parent_span: pending,
        param_names: None,
    }
}

#[test]
fn strip_ctx_name_matches_prefixes() {
    let strip = strings(&["server"]);
    assert!(!should_emit_segment(&strip, false, "serverStuff$", CtxKind::Function));
    assert!(!should_emit_segment(&strip, false, "server$", CtxKind::Function));
    assert!(should_emit_segment(&strip, false, "useTask$", CtxKind::Function));
    assert!(should_emit_segment(&Vec::new(), false, "onClick$", CtxKind::EventHandler));
    assert!(!should_emit_segment(&Vec::new(), true, "onClick$", CtxKind::EventHandler));
    assert!(should_emit_segment(&Vec::new(), true, "component$", CtxKind::Function));
}

#[test]
fn inline_mode_for_inline_hoist_and_lib() {
    assert!(is_inline_mode(EntryStrategy::Inline, EmitMode::Prod));
    assert!(is_inline_mode(EntryStrategy::Hoist, EmitMode::Dev));
    assert!(is_inline_mode(EntryStrategy::Segment, EmitMode::Lib));
    assert!(!is_inline_mode(EntryStrategy::Segment, EmitMode::Prod));
    assert!(!is_inline_mode(EntryStrategy::Smart, EmitMode::Hmr));
}

#[test]
fn wrapper_source_follows_marker_import() {
    let sources = vec![("component$".to_string(), "@qwik.dev/core".to_string()), ("server$".to_string(), "@qwik.dev/router".to_string())];
    assert_eq!(find_wrapper_source(&sources, "@qwik.dev/core", "serverQrl"), "@qwik.dev/router");
    assert_eq!(find_wrapper_source(&sources, "@qwik.dev/core", "componentQrl"), "@qwik.dev/core");
    assert_eq!(find_wrapper_source(&sources, "core", "useTaskQrl"), "core");
    assert_eq!(find_wrapper_source(&sources, "core", "qrl"), "core");
    assert_eq!(find_wrapper_source(&sources, "core", "Qrl"), "core");
}

#[test]
fn parents_resolve_by_call_start() {
    let mut segs = vec![
        segment("s_parent", 5, None),
        segment("s_child", 40, Some(5)),
        segment("s_orphan", 80, Some(999)),
        segment("s_dup", 5, None),
    ];
    patch_segment_parents(&mut segs);
    // the last segment starting at 5 wins
    assert_eq!(segs[1].parent.as_deref(), Some("s_dup"));
    assert_eq!(segs[2].parent, None);
    assert_eq!(segs[0].parent, None);
    assert_eq!(segs[1].name, "s_child");
}

#[test]
fn root_imports_are_synthetic_then_wrappers_then_helpers() {
    let mut g = qwik_optimizer_oxc::collector::GlobalCollect::new_empty();
    g.add_synthetic_import(
        "_restProps".to_string(),
        qwik_optimizer_oxc::collector::Import {
            source: "@qwik.dev/core".to_string(),
            specifier: "_restProps".to_string(),
            kind: qwik_optimizer_oxc::collector::ImportKind::Named,
            synthetic: true,
        },
    );
    g.add_synthetic_import(
        "x_alias".to_string(),
        qwik_optimizer_oxc::collector::Import {
            source: "m".to_string(),
            specifier: "y".to_string(),
            kind: qwik_optimizer_oxc::collector::ImportKind::Named,
            synthetic: true,
        },
    );
    let needs = qwik_optimizer_oxc::segment_rules::ImportNeeds {
        qrl: true,
        inlined_qrl: false,
        noop_qrl: false,
        jsx_sorted: true,
        jsx_split: false,
        fragment: false,
        fn_signal: false,
        wrap_prop: false,
    };
    let wrappers = vec![
        "componentQrl".to_string(),
        "useTaskQrl".to_string(),
        "componentQrl".to_string(),
        "qrlDEV".to_string(),
    ];
    let sources = vec![("component$".to_string(), "@builder.io/qwik".to_string())];
    let r = qwik_optimizer_oxc::segment_rules::root_import_statements(
        needs,
        qwik_optimizer_oxc::types::EmitMode::Dev,
        "@qwik.dev/core",
        &wrappers,
        &sources,
        &g,
    );
    assert_eq!(
        r,
        vec![
            r#"import { y as x_alias } from "m";"#.to_string(),
            r#"import { _restProps } from "@qwik.dev/core";"#.to_string(),
            r#"import { componentQrl } from "@builder.io/qwik";"#.to_string(),
            r#"import { useTaskQrl } from "@qwik.dev/core";"#.to_string(),
            r#"import { qrlDEV } from "@qwik.dev/core";"#.to_string(),
            r#"import { _jsxSorted } from "@qwik.dev/core";"#.to_string(),
        ]
    );
}

#[test]
fn root_gains_root_level_constants_then_registrations() {

    let items = vec![
        HoistedConst { name: "q_a".to_string(), rhs_code: "qrl(a)".to_string(), symbol_name: "q_a".to_string(), is_root_level: true },
        HoistedConst { name: "q_b".to_string(), rhs_code: "qrl(b)".to_string(), symbol_name: "q_b".to_string(), is_root_level: false },
    ];
    let refs = vec!["q_a.s(fn)".to_string()];
    let r = qwik_optimizer_oxc::segment_rules::root_hoisted_statements(&items, &refs, EmitMode::Prod);
    assert_eq!(r, vec!["const q_a = qrl(a);".to_string(), "q_a.s(fn)".to_string()]);
    assert!(qwik_optimizer_oxc::segment_rules::root_hoisted_statements(&items, &refs, EmitMode::Lib).is_empty());
    assert!(qwik_optimizer_oxc::segment_rules::root_hoisted_statements(&items[1..].to_vec(), &vec![], EmitMode::Prod).is_empty());
}

#[test]
fn marker_imports_are_stripped_by_local_or_imported_name() {
    let strip = strings(&["component$", "$"]);
    let consumed = strings(&["qwikify$"]);
    assert!(qwik_optimizer_oxc::segment_rules::strips_marker_import("c$", "component$", &strip, &consumed));
    assert!(qwik_optimizer_oxc::segment_rules::strips_marker_import("$", "$", &strip, &consumed));
    assert!(qwik_optimizer_oxc::segment_rules::strips_marker_import("q", "qwikify$", &strip, &consumed));
    assert!(!qwik_optimizer_oxc::segment_rules::strips_marker_import("useStore", "useStore", &strip, &consumed));
}

#[test]
fn segment_strategy_hoists_a_lazy_qrl() {
    let caps = strings(&["a", "b"]);
    let r = qwik_optimizer_oxc::segment_rules::qrl_site(
        EntryStrategy::Segment, EmitMode::Prod, false, "js", "s_abc", "test.js_s_abc",
        "component$", "componentQrl", &caps, None, false,
    );
    assert_eq!(
        r.hoisted,
        Some(("q_s_abc".to_string(), r#"/*#__PURE__*/ qrl(()=>import("./test.js_s_abc"), "s_abc")"#.to_string()))
    );
    assert_eq!(r.replacement, Some("/*#__PURE__*/ componentQrl(q_s_abc.w([a, b]))".to_string()));
    assert_eq!(r.registration, None);
    assert_eq!(r.helper, "qrl");
    let bare = qwik_optimizer_oxc::segment_rules::qrl_site(
        EntryStrategy::Segment, EmitMode::Dev, true, "js", "s_x", "f_s_x", "$", "qrl", &vec![], None, true,
    );
    assert_eq!(bare.hoisted, None);
    assert_eq!(bare.replacement, Some("q_s_x".to_string()));
    assert_eq!(bare.helper, "qrlDEV");
}

#[test]
fn hoist_strategy_registers_the_body() {
    let r = qwik_optimizer_oxc::segment_rules::qrl_site(
        EntryStrategy::Hoist, EmitMode::Prod, false, "js", "s_h", "f_s_h",
        "useTask$", "useTaskQrl", &vec![], Some("() => 1"), false,
    );
    assert_eq!(r.hoisted, Some(("q_s_h".to_string(), r#"/*#__PURE__*/ _noopQrl("s_h")"#.to_string())));
    assert_eq!(r.registration, Some("q_s_h.s(() => 1);".to_string()));
    assert_eq!(r.replacement, Some("useTaskQrl(q_s_h)".to_string()));
    let lib = qwik_optimizer_oxc::segment_rules::qrl_site(
        EntryStrategy::Hoist, EmitMode::Lib, false, "js", "s_h", "f_s_h",
        "useTask$", "useTaskQrl", &vec![], Some("() => 1"), false,
    );
    assert_eq!(lib.replacement, None);
    assert_eq!(lib.helper, "inlinedQrl");
}
