use qwik_optimizer_oxc::captures::{compute_scoped_idents, IdentType};

fn strings(v: &[&str]) -> Vec<String> {
    v.iter().map(|s| s.to_string()).collect()
}

#[test]
fn compute_scoped_idents_basic() {
    let idents = strings(&["x", "y", "z"]);
    let decl: Vec<(String, IdentType)> = vec![
        ("x".to_string(), IdentType::Const),
        ("y".to_string(), IdentType::Let),
        ("w".to_string(), IdentType::Const),
    ];
    let scoped = compute_scoped_idents(&idents, &decl);
    assert!(scoped.contains(&"x".to_string()));
    assert!(scoped.contains(&"y".to_string()));
    assert!(!scoped.contains(&"z".to_string()));
    assert!(!scoped.contains(&"w".to_string()));
}

#[test]
fn compute_scoped_idents_excludes_fn_class() {
    let idents = strings(&["myFn", "myClass", "myVar"]);
    let decl: Vec<(String, IdentType)> = vec![
        ("myFn".to_string(), IdentType::Fn),
        ("myClass".to_string(), IdentType::Class),
        ("myVar".to_string(), IdentType::Const),
    ];
    let scoped = compute_scoped_idents(&idents, &decl);
    assert!(!scoped.contains(&"myFn".to_string()), "Fn should not be scoped ident");
    assert!(!scoped.contains(&"myClass".to_string()), "Class should not be scoped ident");
    assert!(scoped.contains(&"myVar".to_string()), "Var should be scoped ident");
}

#[test]
fn scoped_idents_sorted_without_repeats() {
    let idents = strings(&["b", "a", "b", "C", "é", "a"]);
    let decl: Vec<(String, IdentType)> = vec![
        ("a".to_string(), IdentType::Let),
        ("b".to_string(), IdentType::Const),
        ("b".to_string(), IdentType::Fn),
        ("C".to_string(), IdentType::Const),
        ("é".to_string(), IdentType::Let),
    ];
    assert_eq!(compute_scoped_idents(&idents, &decl), strings(&["C", "a", "b", "é"]));
}
