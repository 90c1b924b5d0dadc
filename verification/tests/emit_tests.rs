use qwik_optimizer_oxc::emit::{collapse_single_prop_objects, strip_typescript_types};

#[test]
fn test_strip_typescript_types_placeholder() {
    let input = "export const foo = (ref: SeenRef) => {};";
    let result = strip_typescript_types(input);
    assert_eq!(result, input, "Placeholder should return unchanged");
}

#[test]
fn collapse_single_property_object() {
    assert_eq!(
        collapse_single_prop_objects("x = {\n    key: value\n}\nnext"),
        "x = { key: value }\nnext"
    );
    assert_eq!(collapse_single_prop_objects("f({\n  a: 1,\n},"), "f({ a: 1 },");
}

#[test]
fn collapse_leaves_other_shapes() {
    let two = "x = {\n  a: 1,\n  b: 2\n}";
    assert_eq!(collapse_single_prop_objects(two), two);
    let nested = "x = {\n  a: { b: 1 }\n}";
    assert_eq!(collapse_single_prop_objects(nested), nested);
    let comment = "x = {\n  // note\n}";
    assert_eq!(collapse_single_prop_objects(comment), comment);
    let semi = "const a = {\n  key: value\n};";
    assert_eq!(collapse_single_prop_objects(semi), semi);
    assert_eq!(collapse_single_prop_objects("a\r\nb\n"), "a\nb");
}
