use qwik_optimizer_oxc::segment_code::{
    segment_output, transform_function_expr, with_captures, ExprShape,
};

fn strings(v: &[&str]) -> Vec<String> {
    v.iter().map(|s| s.to_string()).collect()
}

#[test]
fn captures_into_each_closure_shape() {
    let caps = strings(&["a"]);
    assert_eq!(
        with_captures("(x) => x + a", &caps, Some(ExprShape::ConciseArrow)),
        "(x) => {\nconst a = _captures[0];\nreturn x + a;\n}"
    );
    assert_eq!(
        with_captures("() => { return a; }", &caps, Some(ExprShape::BlockArrow)),
        "() => { const a = _captures[0];\n return a; }"
    );
    assert_eq!(
        with_captures("function(x) { return a; }", &caps, Some(ExprShape::Function)),
        "function(x) {const a = _captures[0];\n return a; }"
    );
    assert_eq!(with_captures("a", &caps, None), "a");
    assert_eq!(with_captures("() => 1", &[], Some(ExprShape::ConciseArrow)), "() => 1");
}

#[test]
fn transform_function_expr_asks_oxc_for_the_shape() {
    let caps = strings(&["count", "sig"]);
    assert_eq!(
        transform_function_expr("() => count + sig.value", &caps),
        "() => {\nconst count = _captures[0];\nconst sig = _captures[1];\nreturn count + sig.value;\n}"
    );
    assert_eq!(
        transform_function_expr("() => { return count; }", &caps[..1]),
        "() => { const count = _captures[0];\n return count; }"
    );
    assert_eq!(
        transform_function_expr("function () { return count; }", &caps[..1]),
        "function () {const count = _captures[0];\n return count; }"
    );
    assert_eq!(transform_function_expr("count + 1", &caps[..1]), "count + 1");
}

#[test]
fn segment_output_falls_back_to_raw_code() {
    assert_eq!(segment_output("raw", None), ("raw".to_string(), None));
    assert_eq!(
        segment_output("raw", Some(("printed".to_string(), Some("m".to_string())))),
        ("printed".to_string(), Some("m".to_string()))
    );
}
