use qwik_optimizer_oxc::inlined_fn::{convert_inlined_fn, replace_word, InlinedExpr};

fn expr(code: &str, has_call: bool, member_objects: &[&str], or_operands: &[&str]) -> InlinedExpr {
    InlinedExpr {
        is_arrow: false,
        has_call,
        member_objects: member_objects.iter().map(|s| s.to_string()).collect(),
        or_operands: or_operands.iter().map(|s| s.to_string()).collect(),
        printed: format!("const _x = {};\n", code),
    }
}

fn scoped(names: &[&str]) -> Vec<(String, bool)> {
    names.iter().map(|n| (n.to_string(), false)).collect()
}

#[test]
fn fn_signal_check1_arrow_returns_none() {
    // () => x
    let mut e = expr("() => x", false, &[], &[]);
    e.is_arrow = true;
    let (result, _arrow, _is_const) = convert_inlined_fn(&e, &scoped(&["x"]), false, false);
    assert!(result.is_none(), "Arrow expr should return None");
}

#[test]
fn fn_signal_check2_call_returns_none() {
    // signal.doSomething()
    let e = expr("signal.doSomething()", true, &["signal"], &[]);
    let (result, _arrow, _is_const) = convert_inlined_fn(&e, &scoped(&["signal"]), false, false);
    assert!(result.is_none(), "Call expr should return None (used_as_call)");
}

#[test]
fn fn_signal_check3_no_object_usage_returns_none() {
    // x + 1
    let e = expr("x + 1", false, &[], &[]);
    let (result, _arrow, _is_const) = convert_inlined_fn(&e, &scoped(&["x"]), false, false);
    assert!(result.is_none(), "No object usage should return None");
}

#[test]
fn fn_signal_check6_no_captures_returns_none() {
    // a.value
    let e = expr("a.value", false, &["a"], &[]);
    let (result, _arrow, _is_const) = convert_inlined_fn(&e, &scoped(&[]), false, false);
    assert!(result.is_none(), "No captures -> None");
}

#[test]
fn fn_signal_eligible_member_produces_fn_signal() {
    // signal.color
    let e = expr("signal.color", false, &["signal"], &[]);
    let (result, arrow_code, _is_const) = convert_inlined_fn(&e, &scoped(&["signal"]), false, false);
    assert!(result.is_some(), "Eligible member expr should produce _fnSignal");
    let code = result.unwrap();
    assert!(code.starts_with("_fnSignal("), "Should start with _fnSignal");
    assert!(code.contains("p0.color"), "Replaced ident should appear as p0");
    assert!(arrow_code.contains("p0.color"), "arrow_code should contain p0.color");
}

#[test]
fn fn_signal_server_mode_adds_third_arg() {
    let e = expr("signal.color", false, &["signal"], &[]);
    let (result, _arrow, _is_const) = convert_inlined_fn(&e, &scoped(&["signal"]), false, true);
    assert!(result.is_some());
    let code = result.unwrap();
    assert!(code.matches(',').count() >= 2, "Server mode should have 3 args (2 commas): {code}");
}

#[test]
fn fn_signal_replace_word_whole_boundary() {
    assert_eq!(replace_word("signal.value", "signal", "p0"), "p0.value");
    assert_eq!(replace_word("mysignal.value", "signal", "p0"), "mysignal.value");
    assert_eq!(replace_word("x + x", "x", "p0"), "p0 + p0");
}

#[test]
fn replace_word_boundaries_and_dollar() {
    assert_eq!(replace_word("$x + x_1 + x", "x", "p1"), "$p1 + x_1 + p1");
    // the scan resumes right after a rejected match, where a word boundary is
    // assumed again
    assert_eq!(replace_word("xx", "x", "p"), "xp");
    assert_eq!(replace_word("aaa", "aa", "b"), "aaa");
    assert_eq!(replace_word("é x", "x", "p"), "é p");
    assert_eq!(replace_word("", "x", "p"), "");
}

#[test]
fn fn_signal_exact_text() {
    // The printed statement keeps its final `;` before the newline, so the
    // expression text keeps it too.
    let e = expr("signal.color", false, &["signal"], &[]);
    let (result, arrow, is_const) = convert_inlined_fn(&e, &scoped(&["signal"]), true, false);
    assert_eq!(arrow, "p0 => p0.color;");
    assert_eq!(result.unwrap(), "_fnSignal(p0 => p0.color;, [signal])");
    assert!(!is_const);
    // without a newline the `;` goes
    let mut e2 = expr("signal.color", false, &["signal"], &[]);
    e2.printed = "const _x = signal.color;".to_string();
    let (result2, arrow2, _) = convert_inlined_fn(&e2, &scoped(&["signal"]), false, false);
    assert_eq!(arrow2, "p0 => p0.color");
    assert_eq!(result2.unwrap(), "_fnSignal(p0 => p0.color, [signal])");
}

#[test]
fn fn_signal_two_captures_and_or_operand() {
    let mut e = expr("a || b.v", false, &["b"], &["a"]);
    e.printed = "const _x = a || b.v".to_string();
    let (result, arrow, _) = convert_inlined_fn(&e, &scoped(&["a", "b"]), false, false);
    assert_eq!(arrow, "(p0, p1) => p0 || p1.v");
    assert_eq!(result.unwrap(), "_fnSignal((p0, p1) => p0 || p1.v, [a, b])");
}

#[test]
fn fn_signal_server_string_escapes_quotes() {
    let mut e = expr("", false, &["s"], &[]);
    e.printed = "const _x = s.v + \"a\\\\\";".to_string();
    let (result, arrow, _) = convert_inlined_fn(&e, &scoped(&["s"]), false, true);
    assert_eq!(arrow, "p0 => p0.v + \"a\\\\\"");
    assert_eq!(
        result.unwrap(),
        "_fnSignal(p0 => p0.v + \"a\\\\\", [s], \"p0 => p0.v + \\\"a\\\\\\\\\\\"\")"
    );
}

#[test]
fn fn_signal_aborts_and_length_limit() {
    // a nested arrow cannot be re-evaluated: the constness passes through
    let mut e = expr("", false, &["s"], &[]);
    e.printed = "const _x = s.v ? () => 1 : 2;".to_string();
    let (result, arrow, is_const) = convert_inlined_fn(&e, &scoped(&["s"]), true, false);
    assert!(result.is_none());
    assert_eq!(arrow, "");
    assert!(is_const);
    // over 150 bytes after replacement: not wrapped, not constant
    let long = format!("s.{}", "v".repeat(160));
    let mut e2 = expr("", false, &["s"], &[]);
    e2.printed = format!("const _x = {};", long);
    let (result2, _, is_const2) = convert_inlined_fn(&e2, &scoped(&["s"]), true, false);
    assert!(result2.is_none());
    assert!(!is_const2);
    // a call makes the value non-constant
    let e3 = expr("s.f()", true, &["s"], &[]);
    assert_eq!(convert_inlined_fn(&e3, &scoped(&["s"]), true, false), (None, String::new(), false));
    // no object use keeps the constness
    let e4 = expr("s + 1", false, &[], &[]);
    assert_eq!(convert_inlined_fn(&e4, &scoped(&["s"]), true, false), (None, String::new(), true));
}

#[test]
fn fn_signal_byte_length_counts_utf8() {
    // "p0." (3 bytes) and 73 two-byte characters: 149 bytes, within the limit
    let body = "é".repeat(73);
    let mut e = expr("", false, &["s"], &[]);
    e.printed = format!("const _x = s.{};", body);
    let (result, _, _) = convert_inlined_fn(&e, &scoped(&["s"]), false, false);
    assert!(result.is_some());
    // one more character makes 151 bytes
    let body2 = "é".repeat(74);
    let mut e2 = expr("", false, &["s"], &[]);
    e2.printed = format!("const _x = s.{};", body2);
    let (result2, _, _) = convert_inlined_fn(&e2, &scoped(&["s"]), false, false);
    assert!(result2.is_none());
}
