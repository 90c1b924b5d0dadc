use qwik_optimizer_oxc::entry_strategy::{is_inline, parse_entry_strategy};
use qwik_optimizer_oxc::types::{CtxKind, EntryStrategy, SegmentData};

fn seg(origin: &str, ctx_kind: CtxKind, ctx_name: &str, scoped_idents: Vec<String>) -> SegmentData {
    SegmentData {
        origin: origin.to_string(),
        ctx_kind,
        ctx_name: ctx_name.to_string(),
        scoped_idents,
        display_name: String::new(),
        hash: String::new(),
        name: String::new(),
        extension: String::new(),
        span: (0, 0),
        parent: None,
        captures: false,
        capture_names: vec![],
    }
}

#[test]
fn is_inline_inline_true() {
    assert!(is_inline(&EntryStrategy::Inline));
}

#[test]
fn is_inline_hoist_true() {
    assert!(is_inline(&EntryStrategy::Hoist));
}

#[test]
fn is_inline_single_false() {
    assert!(!is_inline(&EntryStrategy::Single));
}

#[test]
fn is_inline_segment_false() {
    assert!(!is_inline(&EntryStrategy::Segment));
}

#[test]
fn is_inline_hook_false() {
    assert!(!is_inline(&EntryStrategy::Hook));
}

#[test]
fn is_inline_component_false() {
    assert!(!is_inline(&EntryStrategy::Component));
}

#[test]
fn is_inline_smart_false() {
    assert!(!is_inline(&EntryStrategy::Smart));
}

#[test]
fn segment_strategy_always_none() {
    let policy = parse_entry_strategy(&EntryStrategy::Segment);
    let s = seg("test", CtxKind::Function, "component$", vec![]);
    assert_eq!(policy.get_entry_for_sym(&[], &s), None);
    assert_eq!(policy.get_entry_for_sym(&["root".to_string()], &s), None);
}

#[test]
fn hook_strategy_always_none() {
    let policy = parse_entry_strategy(&EntryStrategy::Hook);
    let s = seg("test", CtxKind::EventHandler, "$", vec![]);
    assert_eq!(policy.get_entry_for_sym(&[], &s), None);
}

#[test]
fn component_strategy_no_context_returns_entry_segments() {
    let policy = parse_entry_strategy(&EntryStrategy::Component);
    let s = seg("test", CtxKind::Function, "component$", vec![]);
    assert_eq!(policy.get_entry_for_sym(&[], &s), Some("entry_segments".to_string()));
}

#[test]
fn component_strategy_with_context_returns_origin_entry_root() {
    let policy = parse_entry_strategy(&EntryStrategy::Component);
    let s = seg("test", CtxKind::Function, "component$", vec![]);
    assert_eq!(
        policy.get_entry_for_sym(&["Header".to_string()], &s),
        Some("test_entry_Header".to_string())
    );
}

#[test]
fn inline_strategy_always_entry_segments() {
    let policy = parse_entry_strategy(&EntryStrategy::Inline);
    let s = seg("test", CtxKind::Function, "component$", vec![]);
    assert_eq!(policy.get_entry_for_sym(&[], &s), Some("entry_segments".to_string()));
    assert_eq!(
        policy.get_entry_for_sym(&["root".to_string()], &s),
        Some("entry_segments".to_string())
    );
}

#[test]
fn hoist_strategy_maps_to_inline_strategy() {
    let policy = parse_entry_strategy(&EntryStrategy::Hoist);
    let s = seg("test", CtxKind::EventHandler, "$", vec![]);
    assert_eq!(policy.get_entry_for_sym(&[], &s), Some("entry_segments".to_string()));
}

#[test]
fn single_strategy_always_entry_segments() {
    let policy = parse_entry_strategy(&EntryStrategy::Single);
    let s = seg("test", CtxKind::Function, "component$", vec![]);
    assert_eq!(policy.get_entry_for_sym(&[], &s), Some("entry_segments".to_string()));
    assert_eq!(
        policy.get_entry_for_sym(&["root".to_string()], &s),
        Some("entry_segments".to_string())
    );
}

#[test]
fn smart_pure_event_handler_no_captures_returns_none() {
    let policy = parse_entry_strategy(&EntryStrategy::Smart);
    let s = seg("test", CtxKind::EventHandler, "onClick$", vec![]);
    assert_eq!(policy.get_entry_for_sym(&["Header".to_string()], &s), None);
}

#[test]
fn smart_event_dollar_function_no_captures_returns_none() {
    let policy = parse_entry_strategy(&EntryStrategy::Smart);
    let s = seg("test", CtxKind::Function, "event$", vec![]);
    assert_eq!(policy.get_entry_for_sym(&["Header".to_string()], &s), None);
}

#[test]
fn smart_function_with_captures_and_context_returns_origin_entry_root() {
    let policy = parse_entry_strategy(&EntryStrategy::Smart);
    let s = seg("test", CtxKind::Function, "useTask$", vec!["store".to_string()]);
    assert_eq!(
        policy.get_entry_for_sym(&["Header".to_string()], &s),
        Some("test_entry_Header".to_string())
    );
}

#[test]
fn smart_function_no_captures_not_event_dollar_no_context_returns_none() {
    let policy = parse_entry_strategy(&EntryStrategy::Smart);
    let s = seg("test", CtxKind::Function, "component$", vec![]);
    assert_eq!(policy.get_entry_for_sym(&[], &s), None);
}

#[test]
fn smart_scoped_idents_check_before_context_check() {
    let policy = parse_entry_strategy(&EntryStrategy::Smart);
    let s = seg("test", CtxKind::EventHandler, "onClick$", vec![]);
    assert_eq!(policy.get_entry_for_sym(&["Root".to_string()], &s), None);
}

#[test]
fn smart_captured_event_handler_groups_with_component() {
    let policy = parse_entry_strategy(&EntryStrategy::Smart);
    let s = seg("app", CtxKind::EventHandler, "onClick$", vec!["count".to_string()]);
    assert_eq!(
        policy.get_entry_for_sym(&["Counter".to_string(), "inner".to_string()], &s),
        Some("app_entry_Counter".to_string())
    );
}
