use qwik_optimizer_oxc::item_order::{
    collect_needed_extra_top_items, order_items_by_dependency, HoistedConst,
};

fn items(v: &[(&str, &str)]) -> Vec<(String, String)> {
    v.iter().map(|(a, b)| (a.to_string(), b.to_string())).collect()
}

#[test]
fn dependencies_come_first() {
    let input = items(&[("c", "const c = b + a;"), ("b", "const b = a;"), ("a", "const a = 1;")]);
    assert_eq!(
        order_items_by_dependency(input),
        items(&[("a", "const a = 1;"), ("b", "const b = a;"), ("c", "const c = b + a;")])
    );
}

#[test]
fn independent_items_sorted_by_symbol() {
    let input = items(&[("z", "const z = 1;"), ("m", "const m = 2;"), ("a", "const a = 3;")]);
    assert_eq!(
        order_items_by_dependency(input),
        items(&[("a", "const a = 3;"), ("m", "const m = 2;"), ("z", "const z = 1;")])
    );
}

#[test]
fn freed_items_join_queue_in_symbol_order() {
    // roots: b, x (sorted); b frees d and c (sorted c, d); x frees nothing.
    let input = items(&[
        ("d", "const d = b;"),
        ("c", "const c = b;"),
        ("x", "const x = 0;"),
        ("b", "const b = 1;"),
    ]);
    let out = order_items_by_dependency(input);
    let names: Vec<&str> = out.iter().map(|(s, _)| s.as_str()).collect();
    assert_eq!(names, vec!["b", "x", "c", "d"]);
}

#[test]
fn empty_input_stays_empty() {
    assert!(order_items_by_dependency(Vec::new()).is_empty());
}

#[test]
fn cycles_fall_back_to_let_and_assignment() {
    let input = items(&[
        ("q1", "qrl(() => q2, \"q1\")"),
        ("q2", "inlinedQrl(q1, \"q2\")"),
        ("p", "const p = 1;"),
        ("r", "const r = s;"),
        ("s", "const s = r;"),
    ]);
    assert_eq!(
        order_items_by_dependency(input),
        items(&[
            ("q2", "let q2;"),
            ("q1", "let q1;"),
            ("p", "const p = 1;"),
            ("q1", "q1 = qrl(() => q2, \"q1\");"),
            ("q2", "q2 = inlinedQrl(q1, \"q2\");"),
            ("r", "const r = s;"),
            ("s", "const s = r;"),
        ])
    );
}

#[test]
fn self_reference_is_no_dependency() {
    let input = items(&[("b", "const b = a + b;"), ("a", "const a = 1;")]);
    assert_eq!(
        order_items_by_dependency(input),
        items(&[("a", "const a = 1;"), ("b", "const b = a + b;")])
    );
}

fn hc(name: &str, rhs: &str) -> HoistedConst {
    HoistedConst {
        name: name.to_string(),
        rhs_code: rhs.to_string(),
        symbol_name: name.to_string(),
        is_root_level: false,
    }
}

#[test]
fn needed_consts_follow_references() {
    let extra = vec![
        hc("q_a", "qrl(() => import(\"./a\"), \"s_a\", [q_b])"),
        hc("q_b", "qrl(() => import(\"./b\"), \"s_b\")"),
        hc("q_c", "qrl(() => import(\"./c\"), \"s_c\", [q_a])"),
        hc("q_d", "qrl(() => import(\"./d\"), \"s_d\")"),
    ];
    let seed = vec!["q_c".to_string()];
    let needed = collect_needed_extra_top_items(&extra, &seed);
    let names: Vec<&str> = needed.iter().map(|c| c.name.as_str()).collect();
    assert_eq!(names, vec!["q_a", "q_b", "q_c"]);
    assert_eq!(needed[1].rhs_code, extra[1].rhs_code);
}

#[test]
fn no_seed_needs_nothing() {
    let extra = vec![hc("q_a", "qrl(x)")];
    let seed: Vec<String> = Vec::new();
    assert!(collect_needed_extra_top_items(&extra, &seed).is_empty());
}
