use qwik_optimizer_oxc::is_const::JsExpr;
use qwik_optimizer_oxc::jsx_lowering::{lower_jsx_element, lower_jsx_fragment};
use qwik_optimizer_oxc::jsx_transform::{JsxAttr, JsxAttrValue, TagExpr};
use qwik_optimizer_oxc::segment_rules::ImportNeeds;

fn no_needs() -> ImportNeeds {
    ImportNeeds {
        qrl: false,
        inlined_qrl: false,
        noop_qrl: false,
        jsx_sorted: false,
        jsx_split: false,
        fragment: false,
        fn_signal: false,
        wrap_prop: false,
    }
}

fn attr(key: &str, value: JsExpr) -> JsxAttr {
    JsxAttr::Attribute { key: key.to_string(), value: JsxAttrValue::Expr(value) }
}

#[test]
fn root_element_splits_props_and_gets_generated_key() {
    let attrs = vec![attr("class", JsExpr::StringLiteral), attr("onClick", JsExpr::Other)];
    let values = vec!["\"a\"".to_string(), "handler".to_string()];
    let children = vec!["\"hi\"".to_string()];
    let mut counter = 0u32;
    let mut needs = no_needs();
    let code = lower_jsx_element(
        &attrs,
        &values,
        &children,
        &TagExpr::StringLiteral("div".to_string()),
        "div",
        false,
        true,
        true,
        false,
        &mut counter,
        &mut needs,
    );
    assert_eq!(code, "_jsxSorted(\"div\", { onClick: handler }, { class: \"a\" }, \"hi\", 1, \"0\")");
    assert_eq!(counter, 1);
    assert!(needs.jsx_sorted);
    assert!(!needs.jsx_split);
}

#[test]
fn nested_element_without_key_gets_null_and_spread_uses_split() {
    let attrs = vec![JsxAttr::Spread, attr("id", JsExpr::Other)];
    let values = vec!["props".to_string(), "x".to_string()];
    let children = vec!["a".to_string(), "b".to_string()];
    let mut counter = 5u32;
    let mut needs = no_needs();
    let code = lower_jsx_element(
        &attrs,
        &values,
        &children,
        &TagExpr::StringLiteral("span".to_string()),
        "span",
        false,
        false,
        false,
        true,
        &mut counter,
        &mut needs,
    );
    assert_eq!(code, "_jsxSplit(\"span\", { ...props, id: x }, null, [a, b], 1, null)");
    assert_eq!(counter, 5);
    assert!(!needs.jsx_split);
}

#[test]
fn component_key_attribute_wins_but_counter_moves() {
    let attrs = vec![
        attr("key", JsExpr::StringLiteral),
        JsxAttr::Attribute { key: "disabled".to_string(), value: JsxAttrValue::Absent },
        attr("children", JsExpr::Other),
    ];
    let values = vec!["\"k\"".to_string(), String::new(), "kids".to_string()];
    let mut counter = 2u32;
    let mut needs = no_needs();
    let code = lower_jsx_element(
        &attrs,
        &values,
        &Vec::new(),
        &TagExpr::Identifier("Header".to_string()),
        "Header",
        true,
        false,
        true,
        true,
        &mut counter,
        &mut needs,
    );
    assert!(needs.fn_signal);
    assert_eq!(code, "_jsxSorted(Header, null, { disabled: true }, kids, 1, \"k\")");
    assert_eq!(counter, 3);
}

#[test]
fn root_fragment_gets_key_and_needs_fragment() {
    let mut counter = 0u32;
    let mut needs = no_needs();
    let code = lower_jsx_fragment(&vec!["a".to_string(), "b".to_string()], true, true, &mut counter, &mut needs);
    assert_eq!(code, "_jsxSorted(_Fragment, null, null, [a, b], 1, \"0\")");
    assert_eq!(counter, 1);
    assert!(needs.fragment);
    assert!(needs.jsx_sorted);
    let inner = lower_jsx_fragment(&Vec::new(), false, false, &mut counter, &mut needs);
    assert_eq!(inner, "_jsxSorted(_Fragment, null, null, null, 1, null)");
    assert_eq!(counter, 1);
}
