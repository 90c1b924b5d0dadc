use qwik_optimizer_oxc::is_const::{is_const_expression, ArrayElem, JsExpr, ObjectProp};

fn b(e: JsExpr) -> Box<JsExpr> {
    Box::new(e)
}

#[test]
fn test_numeric_literal_is_const() {
    // 42
    assert!(is_const_expression(&JsExpr::NumericLiteral));
}

#[test]
fn test_string_literal_is_const() {
    // "hello"
    assert!(is_const_expression(&JsExpr::StringLiteral));
}

#[test]
fn test_boolean_literal_is_const() {
    // true
    assert!(is_const_expression(&JsExpr::BooleanLiteral));
}

#[test]
fn test_null_literal_is_const() {
    // null
    assert!(is_const_expression(&JsExpr::NullLiteral));
}

#[test]
fn test_identifier_is_not_const() {
    // foo
    assert!(!is_const_expression(&JsExpr::Other));
}

#[test]
fn test_call_expression_is_not_const() {
    // foo()
    assert!(!is_const_expression(&JsExpr::Other));
}

#[test]
fn test_member_expression_is_not_const() {
    // a.b
    assert!(!is_const_expression(&JsExpr::Other));
}

#[test]
fn test_typeof_is_const() {
    // typeof foo
    let e = JsExpr::Unary { is_typeof: true, argument: b(JsExpr::Other) };
    assert!(is_const_expression(&e));
}

#[test]
fn test_binary_of_literals_is_const() {
    // 1 + 2
    let e = JsExpr::Binary { left: b(JsExpr::NumericLiteral), right: b(JsExpr::NumericLiteral) };
    assert!(is_const_expression(&e));
}

#[test]
fn test_binary_with_identifier_is_not_const() {
    // 1 + x
    let e = JsExpr::Binary { left: b(JsExpr::NumericLiteral), right: b(JsExpr::Other) };
    assert!(!is_const_expression(&e));
}

#[test]
fn test_template_literal_no_expressions_is_const() {
    // `hello`
    assert!(is_const_expression(&JsExpr::Template(Vec::new())));
}

#[test]
fn test_ternary_all_const_is_const() {
    // true ? 1 : 2
    let e = JsExpr::Conditional {
        test: b(JsExpr::BooleanLiteral),
        consequent: b(JsExpr::NumericLiteral),
        alternate: b(JsExpr::NumericLiteral),
    };
    assert!(is_const_expression(&e));
}

#[test]
fn test_ternary_with_identifier_is_not_const() {
    // x ? 1 : 2
    let e = JsExpr::Conditional {
        test: b(JsExpr::Other),
        consequent: b(JsExpr::NumericLiteral),
        alternate: b(JsExpr::NumericLiteral),
    };
    assert!(!is_const_expression(&e));
}

#[test]
fn is_const_template_with_expressions() {
    // `a${1}b${"x"}` is constant, `a${x}` is not
    let all = JsExpr::Template(vec![JsExpr::NumericLiteral, JsExpr::StringLiteral]);
    assert!(is_const_expression(&all));
    let some = JsExpr::Template(vec![JsExpr::NumericLiteral, JsExpr::Other]);
    assert!(!is_const_expression(&some));
}

#[test]
fn is_const_unary_other_than_typeof_follows_argument() {
    // -1 is constant, !x is not
    let neg = JsExpr::Unary { is_typeof: false, argument: b(JsExpr::NumericLiteral) };
    assert!(is_const_expression(&neg));
    let not = JsExpr::Unary { is_typeof: false, argument: b(JsExpr::Other) };
    assert!(!is_const_expression(&not));
}

#[test]
fn is_const_object_literals() {
    // { a: 1, b: "x" } is constant; { a: x } and { ...rest } are not
    let lit = JsExpr::Object(vec![
        ObjectProp::Property(JsExpr::NumericLiteral),
        ObjectProp::Property(JsExpr::StringLiteral),
    ]);
    assert!(is_const_expression(&lit));
    let var = JsExpr::Object(vec![ObjectProp::Property(JsExpr::Other)]);
    assert!(!is_const_expression(&var));
    let spread = JsExpr::Object(vec![ObjectProp::Property(JsExpr::NullLiteral), ObjectProp::Spread]);
    assert!(!is_const_expression(&spread));
    assert!(is_const_expression(&JsExpr::Object(Vec::new())));
}

#[test]
fn is_const_array_literals() {
    // [1, , "x"] is constant; [x], [...a] and [`t`] are not
    let lit = JsExpr::Array(vec![ArrayElem::Literal, ArrayElem::Elision, ArrayElem::Literal]);
    assert!(is_const_expression(&lit));
    assert!(!is_const_expression(&JsExpr::Array(vec![ArrayElem::Other])));
    assert!(!is_const_expression(&JsExpr::Array(vec![ArrayElem::Literal, ArrayElem::Spread])));
}

#[test]
fn is_const_parenthesized_and_other_literals() {
    assert!(is_const_expression(&JsExpr::Parenthesized(b(JsExpr::BigIntLiteral))));
    assert!(is_const_expression(&JsExpr::RegExpLiteral));
    assert!(!is_const_expression(&JsExpr::Parenthesized(b(JsExpr::Other))));
}
