use qwik_optimizer_oxc::code_move::{
    contains_word, create_named_export, dedup_by_sym, extract_arrow_concise_body,
    extract_arrow_params, extract_defined_sym, extract_first_ident, extract_second_string_arg,
    find_function_body_brace, fix_self_referential_vars, format_import_stmt, hoist_qrls_from_expr,
    inject_use_hmr, new_module_captures_import, prepend_into_block_arrow,
    prepend_into_function_body, read_captures, replace_word, word_idents_in,
};
use qwik_optimizer_oxc::segment_code::{emit_segment, transform_function_expr};

fn chars(s: &str) -> Vec<char> {
    s.chars().collect()
}

#[test]
fn captures_import_generates_correct_import_statement() {
    let result = new_module_captures_import("@qwik.dev/core");
    assert_eq!(result, r#"import { _captures } from "@qwik.dev/core";"#);
}

#[test]
fn read_captures_generates_individual_consts() {
    let idents = vec!["count".to_string(), "signal".to_string()];
    let result = read_captures(&idents);
    assert_eq!(result, "const count = _captures[0];\nconst signal = _captures[1];\n");
}

#[test]
fn transform_function_expr_no_captures_unchanged() {
    let expr = "() => 42";
    let result = transform_function_expr(expr, &[]);
    assert_eq!(result, "() => 42");
}

#[test]
fn hoist_qrls_from_expr_basic() {
    let expr = r#"qrl(() => import("./x"), "s_abc")"#;
    let (modified, hoisted) = hoist_qrls_from_expr(expr);
    assert_eq!(modified, "s_abc");
    assert_eq!(hoisted.len(), 1);
    assert_eq!(hoisted[0].0, "s_abc");
}

#[test]
fn fix_self_referential_var() {
    let body = "const x = fn(x);";
    let result = fix_self_referential_vars(body);
    assert!(result.contains("const _ref = {}"));
    assert!(result.contains("_ref.x = fn(_ref.x)"));
    assert!(result.contains("const { x } = _ref"));
}

#[test]
fn create_named_export_basic() {
    let result = create_named_export("myComp", "componentQrl(...)");
    assert_eq!(result, "export const myComp = componentQrl(...);");
}

#[test]
fn emit_segment_round_trips_code() {
    let code = "const x = 1;\nexport const y = 2;\n";
    let (out, map) = emit_segment(code, "test.js", false);
    assert!(out.contains("x"));
    assert!(out.contains("y"));
    assert!(map.is_none());
}

#[test]
fn emit_segment_with_source_map_names_the_file() {
    let code = "export const y = 'a';\n";
    let (out, map) = emit_segment(code, "seg.js", true);
    assert!(out.contains("\"a\""));
    let map = map.expect("a source map");
    assert!(map.contains("seg.js"));
}

#[test]
fn format_import_stmt_same_and_renamed() {
    assert_eq!(format_import_stmt("foo", "foo", "./a"), r#"import { foo } from "./a";"#);
    assert_eq!(format_import_stmt("foo", "bar", "./a"), r#"import { foo as bar } from "./a";"#);
}

#[test]
fn arrow_params_and_bodies() {
    assert_eq!(extract_arrow_params("(a, b) => a + b"), "a, b");
    assert_eq!(extract_arrow_params("x => x"), "x");
    assert_eq!(extract_arrow_params("no arrow here"), "");
    assert_eq!(extract_arrow_concise_body("(a) =>  a + 1 "), "a + 1");
    assert_eq!(extract_arrow_concise_body("noarrow"), "noarrow");
}

#[test]
fn prepend_into_bodies() {
    assert_eq!(prepend_into_block_arrow("() => { return 1; }", "X;"), "() => { X; return 1; }");
    assert_eq!(prepend_into_block_arrow("() => 1", "X;"), "() => 1");
    assert_eq!(
        prepend_into_function_body("function(a) { return a; }", "X;"),
        "function(a) {X; return a; }"
    );
    assert_eq!(prepend_into_function_body("no parens {", "X;"), "no parens {");
    assert_eq!(find_function_body_brace(&chars("function(a) {}")), Some(12));
    assert_eq!(find_function_body_brace(&chars("function(a, (b)) {}")), Some(17));
    assert_eq!(find_function_body_brace(&chars("function(a)")), None);
}

#[test]
fn inject_use_hmr_block_and_concise() {
    assert_eq!(
        inject_use_hmr("() => { return 1; }", "/p"),
        "() => { \n_useHmr(\"/p\");\n return 1; }"
    );
    assert_eq!(inject_use_hmr("(a) => a", "/p"), "(a) => {\n_useHmr(\"/p\");\nreturn a;\n}");
    assert_eq!(
        inject_use_hmr("function() { go(); }", "/p"),
        "function() {\n_useHmr(\"/p\");\n go(); }"
    );
}

#[test]
fn second_string_argument() {
    assert_eq!(
        extract_second_string_arg(&chars(r#"() => import("./x"), "s_abc""#)),
        Some("s_abc".to_string())
    );
    assert_eq!(extract_second_string_arg(&chars("a, 'b'")), Some("b".to_string()));
    assert_eq!(extract_second_string_arg(&chars("f(a, b)")), None);
    assert_eq!(extract_second_string_arg(&chars("a, b")), None);
}

#[test]
fn hoist_inlined_then_plain_qrls() {
    let expr = r#"use(inlinedQrl(fn, "s_one"), qrl(() => import("./b"), "s_two"))"#;
    let (modified, hoisted) = hoist_qrls_from_expr(expr);
    assert_eq!(modified, "use(s_one, s_two)");
    assert_eq!(hoisted.len(), 2);
    assert_eq!(hoisted[0], ("s_one".to_string(), r#"inlinedQrl(fn, "s_one")"#.to_string()));
    assert_eq!(hoisted[1], ("s_two".to_string(), r#"qrl(() => import("./b"), "s_two")"#.to_string()));
}

#[test]
fn word_idents_in_order_with_repeats() {
    assert_eq!(
        word_idents_in("a.b(c1, _d) + $e + a"),
        vec!["a", "b", "c1", "_d", "$e", "a"]
    );
    assert_eq!(word_idents_in("1abc"), vec!["abc"]);
    assert!(word_idents_in("12 + 3").is_empty());
}

#[test]
fn defined_symbols_and_dedup() {
    assert_eq!(extract_first_ident("  foo bar"), Some("foo".to_string()));
    assert_eq!(extract_first_ident("   "), None);
    assert_eq!(extract_defined_sym("const x = 1;"), Some("x".to_string()));
    assert_eq!(extract_defined_sym("  export const y = 2;"), Some("y".to_string()));
    assert_eq!(extract_defined_sym("import { z } from 'a';"), Some("z".to_string()));
    assert_eq!(extract_defined_sym("let w;"), Some("w".to_string()));
    assert_eq!(extract_defined_sym("foo();"), None);
    let items = vec![
        "const a = 1;".to_string(),
        "foo();".to_string(),
        "const a = 2;".to_string(),
        "foo();".to_string(),
        "import { b } from 'x';".to_string(),
        "export const b = 3;".to_string(),
    ];
    assert_eq!(
        dedup_by_sym(items),
        vec!["const a = 1;", "foo();", "foo();", "import { b } from 'x';"]
    );
}

#[test]
fn aliased_import_defines_its_local_name() {
    assert_eq!(
        extract_defined_sym(r#"import { foo as bar } from "x";"#),
        Some("bar".to_string())
    );
    assert_eq!(extract_defined_sym("import { foo, bar } from 'x';"), Some("foo".to_string()));
    assert_eq!(extract_defined_sym("import { asx } from 'x';"), Some("asx".to_string()));
    let items = vec![
        r#"import { foo as bar } from "x";"#.to_string(),
        r#"import { foo as baz } from "x";"#.to_string(),
        r#"import { qux as bar } from "y";"#.to_string(),
    ];
    assert_eq!(
        dedup_by_sym(items),
        vec![r#"import { foo as bar } from "x";"#, r#"import { foo as baz } from "x";"#]
    );
}

#[test]
fn whole_words_only() {
    assert!(contains_word("a + count", "count"));
    assert!(!contains_word("a + counter", "count"));
    assert!(!contains_word("_count", "count"));
    assert!(contains_word("x.count", "count"));
    assert_eq!(replace_word("count + counter + count", "count", "n"), "n + counter + n");
    assert_eq!(replace_word("$count + count", "count", "n"), "$count + n");
}

#[test]
fn fix_self_referential_keeps_other_lines_and_indentation() {
    let body = "let a = 1;\n  const x = f(x, a);\nreturn x;";
    let result = fix_self_referential_vars(body);
    assert_eq!(
        result,
        "let a = 1;\n  const _ref = {};\n  _ref.x = f(_ref.x, a);\n  const { x } = _ref;\nreturn x;"
    );
    assert_eq!(fix_self_referential_vars("const y = 2;"), "const y = 2;");
}

#[test]
fn whole_words_in_non_ascii_text() {
    assert!(contains_word("é + count", "count"));
    assert!(!contains_word("écount", "count"));
    assert_eq!(replace_word("café + x", "x", "y"), "café + y");
    assert_eq!(fix_self_referential_vars("const é = f(é);"), "const _ref = {};\n_ref.é = f(_ref.é);\nconst { é } = _ref;");
}
