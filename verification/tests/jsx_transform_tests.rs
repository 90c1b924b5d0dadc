use qwik_optimizer_oxc::is_const::JsExpr;
use qwik_optimizer_oxc::jsx_transform::{
    classify_props, classify_tag, gen_jsx_key, jsx_attr_key, JsxAttr, JsxAttrValue, JsxTagName,
    PropEntry, PropSplit, TagExpr,
};

fn attr(key: &str, value: JsxAttrValue) -> JsxAttr {
    JsxAttr::Attribute { key: key.to_string(), value }
}

fn prop(key: &str, quoted: bool, attr: usize, value_is_true: bool) -> PropEntry {
    PropEntry::Prop { key: key.to_string(), quoted, attr, value_is_true }
}

#[test]
fn jsx_transform_gen_key_increments() {
    let mut counter = 0u32;
    assert_eq!(gen_jsx_key(&mut counter), "0");
    assert_eq!(gen_jsx_key(&mut counter), "1");
    assert_eq!(gen_jsx_key(&mut counter), "2");
}

#[test]
fn jsx_transform_classify_tag_lowercase_is_intrinsic() {
    let (is_fn, expr) = classify_tag(&JsxTagName::Identifier("div".to_string()));
    assert!(!is_fn, "lowercase element should not be a function component");
    assert_eq!(expr, TagExpr::StringLiteral("div".to_string()));
}

#[test]
fn jsx_transform_classify_tag_uppercase_is_component() {
    let (is_fn, expr) = classify_tag(&JsxTagName::Identifier("Header".to_string()));
    assert!(is_fn, "uppercase element should be a function component");
    assert_eq!(expr, TagExpr::Identifier("Header".to_string()));
}

#[test]
fn jsx_transform_jsx_attr_key_owned_namespaced() {
    assert_eq!(jsx_attr_key(Some("bind"), "value"), "bind:value");
    assert_eq!(jsx_attr_key(None, "class"), "class");
}

#[test]
fn other_tag_kinds() {
    assert_eq!(
        classify_tag(&JsxTagName::NamespacedName("svg".to_string(), "rect".to_string())),
        (false, TagExpr::StringLiteral("svg:rect".to_string()))
    );
    assert_eq!(classify_tag(&JsxTagName::MemberExpression), (true, TagExpr::Member));
    assert_eq!(classify_tag(&JsxTagName::ThisExpression), (true, TagExpr::This));
    assert_eq!(
        classify_tag(&JsxTagName::IdentifierReference("x".to_string())),
        (true, TagExpr::Identifier("x".to_string()))
    );
    assert_eq!(classify_tag(&JsxTagName::Identifier(String::new())).0, false);
    let mut c = 41u32;
    assert_eq!(gen_jsx_key(&mut c), "41");
    assert_eq!(c, 42);
}

#[test]
fn jsx_transform_is_valid_prop_key() {
    // className normalizes to class
    let split = classify_props(&vec![attr("className", JsxAttrValue::Expr(JsExpr::StringLiteral))]);
    assert_eq!(split.const_props, vec![prop("class", false, 0, false)]);
    assert!(split.var_props.is_empty());
}

#[test]
fn classify_props_splits_const_and_var() {
    // <div id="a" onClick$={handler} {...rest} disabled data-x={1} key="k" bind:value={sig}>
    let attrs = vec![
        attr("id", JsxAttrValue::Expr(JsExpr::StringLiteral)),
        attr("onClick$", JsxAttrValue::Expr(JsExpr::Other)),
        JsxAttr::Spread,
        attr("disabled", JsxAttrValue::Absent),
        attr("data-x", JsxAttrValue::Expr(JsExpr::NumericLiteral)),
        attr("key", JsxAttrValue::Expr(JsExpr::StringLiteral)),
        attr("bind:value", JsxAttrValue::Expr(JsExpr::Other)),
    ];
    assert_eq!(
        classify_props(&attrs),
        PropSplit {
            has_spread: true,
            var_props: vec![
                prop("onClick$", false, 1, false),
                PropEntry::Spread(2),
                prop("bind:value", true, 6, false),
            ],
            const_props: vec![
                prop("id", false, 0, false),
                prop("disabled", false, 3, true),
                prop("data-x", true, 4, false),
            ],
            key: Some(5),
            children: None,
        }
    );
}

#[test]
fn classify_props_key_and_children_rules() {
    // the last key with a value wins; an empty one clears it; none keeps it
    let attrs = vec![
        attr("key", JsxAttrValue::Expr(JsExpr::StringLiteral)),
        attr("children", JsxAttrValue::Expr(JsExpr::Other)),
        attr("key", JsxAttrValue::Absent),
        attr("children", JsxAttrValue::Empty),
        attr("title", JsxAttrValue::Empty),
    ];
    let split = classify_props(&attrs);
    assert_eq!(split.key, Some(0));
    assert_eq!(split.children, None);
    assert!(!split.has_spread);
    assert_eq!(split.const_props, vec![prop("title", false, 4, true)]);
    assert!(split.var_props.is_empty());
    assert_eq!(classify_props(&Vec::new()), PropSplit {
        has_spread: false,
        var_props: Vec::new(),
        const_props: Vec::new(),
        key: None,
        children: None,
    });
}

#[test]
fn classify_props_each_plain_attribute_once() {
    let attrs = vec![
        attr("a", JsxAttrValue::Expr(JsExpr::Other)),
        attr("key", JsxAttrValue::Expr(JsExpr::StringLiteral)),
        JsxAttr::Spread,
        attr("b", JsxAttrValue::Absent),
        attr("children", JsxAttrValue::Expr(JsExpr::Other)),
        attr("c", JsxAttrValue::Expr(JsExpr::NumericLiteral)),
    ];
    let split = classify_props(&attrs);
    let source = |e: &PropEntry| match e {
        PropEntry::Spread(a) => *a,
        PropEntry::Prop { attr, .. } => *attr,
    };
    for i in 0..attrs.len() {
        let n = split.var_props.iter().chain(split.const_props.iter()).filter(|e| source(e) == i).count();
        let special = i == 1 || i == 4;
        assert_eq!(n, if special { 0 } else { 1 }, "attribute {i}");
    }
}
