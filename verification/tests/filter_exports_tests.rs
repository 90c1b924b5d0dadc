use qwik_optimizer_oxc::filter_exports::{
    filter_ctx_names, filter_exports, should_strip_call, StripAction, TopLevelStmt, STRIP_MESSAGE,
};

fn strings(v: &[&str]) -> Vec<String> {
    v.iter().map(|s| s.to_string()).collect()
}

fn export_var(name: &str) -> TopLevelStmt {
    TopLevelStmt::ExportVars { declarators: 1, name: Some(name.to_string()), has_init: true }
}

fn call(callee: &str) -> TopLevelStmt {
    TopLevelStmt::CallStatement { callee: Some(callee.to_string()) }
}

#[test]
fn filter_exports_strips_arrow_function() {
    // export const onGet = () => { return 42; };
    let stmts = vec![export_var("onGet")];
    assert_eq!(filter_exports(&stmts, &strings(&["onGet"])), vec![StripAction::StubInitializer]);
    assert!(STRIP_MESSAGE.starts_with("Symbol removed by Qwik Optimizer"));
}

#[test]
fn filter_exports_strips_function_declaration() {
    // export function onGet() { return 42; }
    let stmts = vec![TopLevelStmt::ExportFunction { name: Some("onGet".to_string()) }];
    assert_eq!(filter_exports(&stmts, &strings(&["onGet"])), vec![StripAction::FunctionToConstStub]);
}

#[test]
fn filter_exports_strips_named_exports() {
    // export const Foo = () => 1; export const Bar = () => 2; export const Keep = () => 3;
    let stmts = vec![export_var("Foo"), export_var("Bar"), export_var("Keep")];
    assert_eq!(
        filter_exports(&stmts, &strings(&["Foo", "Bar"])),
        vec![StripAction::StubInitializer, StripAction::StubInitializer, StripAction::Keep]
    );
}

#[test]
fn filter_exports_does_not_strip_multi_declarator() {
    // export const { a, b } = obj;
    let stmts = vec![TopLevelStmt::ExportVars { declarators: 1, name: None, has_init: true }];
    assert_eq!(filter_exports(&stmts, &strings(&["a"])), vec![StripAction::Keep]);
    let two = vec![TopLevelStmt::ExportVars { declarators: 2, name: Some("a".to_string()), has_init: true }];
    assert_eq!(filter_exports(&two, &strings(&["a"])), vec![StripAction::Keep]);
}

#[test]
fn filter_exports_does_not_strip_unmatched() {
    let stmts = vec![export_var("keep")];
    assert_eq!(filter_exports(&stmts, &strings(&["other"])), vec![StripAction::Keep]);
}

#[test]
fn filter_exports_empty_is_noop() {
    let stmts = vec![export_var("onGet")];
    assert_eq!(filter_exports(&stmts, &Vec::new()), vec![StripAction::Keep]);
}

#[test]
fn filter_exports_strips_default_via_function() {
    // export default function handler() { return 42; }
    let stmts = vec![TopLevelStmt::Other];
    assert_eq!(filter_exports(&stmts, &strings(&["default"])), vec![StripAction::Keep]);
}

#[test]
fn filter_ctx_names_strips_matching_dollar_call() {
    // onClick$(() => console.log("hi"));
    let stmts = vec![call("onClick$")];
    assert_eq!(filter_ctx_names(&stmts, &strings(&["onClick$"]), false), vec![StripAction::VoidStatement]);
}

#[test]
fn filter_ctx_names_preserves_non_matching() {
    let stmts = vec![call("useTask$")];
    assert_eq!(filter_ctx_names(&stmts, &strings(&["onClick$"]), false), vec![StripAction::Keep]);
}

#[test]
fn filter_ctx_names_strip_event_handlers() {
    // onClick$(() => {}); onInput$(() => {}); useTask$(() => {});
    let stmts = vec![call("onClick$"), call("onInput$"), call("useTask$")];
    assert_eq!(
        filter_ctx_names(&stmts, &Vec::new(), true),
        vec![StripAction::VoidStatement, StripAction::VoidStatement, StripAction::Keep]
    );
}

#[test]
fn export_without_initializer_and_other_statements_stay() {
    let stmts = vec![
        TopLevelStmt::ExportVars { declarators: 1, name: Some("x".to_string()), has_init: false },
        TopLevelStmt::CallStatement { callee: None },
        call("x"),
    ];
    assert_eq!(
        filter_exports(&stmts, &strings(&["x"])),
        vec![StripAction::Keep, StripAction::Keep, StripAction::Keep]
    );
    assert_eq!(
        filter_ctx_names(&stmts, &strings(&["x"]), false),
        vec![StripAction::Keep, StripAction::Keep, StripAction::VoidStatement]
    );
    assert!(should_strip_call("onX$", &Vec::new(), true));
    assert!(!should_strip_call("onX$", &Vec::new(), false));
}
