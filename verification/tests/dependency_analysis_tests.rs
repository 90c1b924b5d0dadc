use qwik_optimizer_oxc::dependency_analysis::{
    analyze_root_dependencies, build_main_module_usage_set, build_root_var_usage_map,
    contains_whole_word, find_migratable_vars, MainStmt, RootDeclarator, RootStmt, RootVarInfo,
    VarKind,
};
use qwik_optimizer_oxc::collector::{global_collect, GlobalCollect, ImportSpec, ModuleStmt};
use qwik_optimizer_oxc::module_output::SegmentRecord;
use qwik_optimizer_oxc::types::CtxKind;

fn make_segment(name: &str, local_idents: Vec<&str>, expr: Option<&str>) -> SegmentRecord {
    SegmentRecord {
        name: name.to_string(),
        display_name: name.to_string(),
        canonical_filename: name.to_string(),
        entry: None,
        expr: expr.map(|s| s.to_string()),
        scoped_idents: Vec::new(),
        local_idents: local_idents.into_iter().map(|s| s.to_string()).collect(),
        ctx_name: "component$".to_string(),
        ctx_kind: CtxKind::Function,
        origin: "test.tsx".to_string(),
        span: (0, 0),
        hash: "abc12345678".to_string(),
        is_inline: false,
        migrated_root_vars: Vec::new(),
        parent: None,
        pending_parent_span: None,
        param_names: None,
    }
}

fn decl(name: &str, code: &str, imported: bool, exported: bool, deps: &[&str]) -> (String, RootVarInfo) {
    (
        name.to_string(),
        RootVarInfo {
            code: code.to_string(),
            is_imported: imported,
            is_exported: exported,
            depends_on: deps.iter().map(|s| s.to_string()).collect(),
        },
    )
}

fn strings(v: &[&str]) -> Vec<String> {
    v.iter().map(|s| s.to_string()).collect()
}

fn declarator(name: Option<&str>, init: Option<&str>, refs: &[&str]) -> RootDeclarator {
    RootDeclarator { name: name.map(|s| s.to_string()), init: init.map(|s| s.to_string()), init_refs: strings(refs) }
}

fn vars(kind: VarKind, exported: bool, ds: Vec<RootDeclarator>) -> RootStmt {
    RootStmt::Vars { kind, declarators: ds, exported }
}

fn empty_global() -> GlobalCollect {
    GlobalCollect::new_empty()
}

/// `const THRESHOLD = 100;`
fn threshold_stmts() -> Vec<RootStmt> {
    vec![vars(VarKind::Const, false, vec![declarator(Some("THRESHOLD"), Some("100"), &[])])]
}

/// What the root analysis finds in `const THRESHOLD = 100;`.
fn threshold_deps() -> Vec<(String, RootVarInfo)> {
    analyze_root_dependencies(&threshold_stmts(), &empty_global())
}

fn info<'a>(deps: &'a [(String, RootVarInfo)], name: &str) -> &'a RootVarInfo {
    &deps.iter().find(|(k, _)| k == name).expect("declaration present").1
}

#[test]
fn analyze_root_dependencies_finds_const_decl() {
    let result = threshold_deps();
    assert!(result.iter().any(|(k, _)| k == "THRESHOLD"));
    let info = info(&result, "THRESHOLD");
    assert!(!info.is_imported);
    assert!(!info.is_exported);
    assert_eq!(info.code, "const THRESHOLD = 100;");
    assert!(info.depends_on.is_empty());
}

#[test]
fn analyze_root_dependencies_flags_and_dependencies() {
    // import { imp } from "./m";
    // const a = imp + b + b + other, { p } = obj;
    // export let b = 1;
    // function f() { return a + g; }
    // let c;
    // export { a }; export { _auto_c };   (exports: a, _auto_c)
    let stmts = vec![
        RootStmt::Other,
        vars(
            VarKind::Const,
            false,
            vec![
                declarator(Some("a"), Some("imp + b + b + other"), &["imp", "b", "b", "other"]),
                declarator(None, Some("obj"), &["obj"]),
            ],
        ),
        vars(VarKind::Let, true, vec![declarator(Some("b"), Some("1"), &[])]),
        RootStmt::FnOrClass {
            name: Some("f".to_string()),
            code: "function f() { return a + g; }".to_string(),
            refs: strings(&["a", "g"]),
            exported: false,
        },
        vars(VarKind::Let, false, vec![declarator(Some("c"), None, &[]), declarator(Some("_auto_c"), Some(""), &[])]),
        RootStmt::FnOrClass { name: None, code: "class {}".to_string(), refs: Vec::new(), exported: false },
    ];
    let global = global_collect(&vec![
        ModuleStmt::Import {
            source: "./m".to_string(),
            specifiers: vec![ImportSpec::Named { local: "imp".to_string(), imported: "imp".to_string() }],
        },
        ModuleStmt::ExportNamed { exported: strings(&["a", "_auto_c"]), declared: Vec::new() },
    ]);
    let deps = analyze_root_dependencies(&stmts, &global);
    assert_eq!(deps.len(), 5);
    let a = info(&deps, "a");
    assert_eq!(a.code, "const a = imp + b + b + other;");
    assert!(a.is_exported && !a.is_imported);
    assert_eq!(a.depends_on, strings(&["b", "b"]));
    let b = info(&deps, "b");
    assert_eq!(b.code, "let b = 1;");
    assert!(b.is_exported);
    let f = info(&deps, "f");
    assert_eq!(f.code, "function f() { return a + g; }");
    assert_eq!(f.depends_on, strings(&["a"]));
    assert!(!f.is_exported);
    assert_eq!(info(&deps, "c").code, "let c;");
    let auto = info(&deps, "_auto_c");
    assert_eq!(auto.code, "let _auto_c;");
    assert!(!auto.is_exported, "generated exports do not count");
}

#[test]
fn analyze_root_dependencies_later_declaration_wins() {
    let stmts = vec![
        vars(VarKind::Var, false, vec![declarator(Some("x"), Some("1"), &[])]),
        vars(VarKind::Var, false, vec![declarator(Some("x"), Some("2"), &[])]),
    ];
    let deps = analyze_root_dependencies(&stmts, &empty_global());
    assert_eq!(deps.len(), 1);
    assert_eq!(info(&deps, "x").code, "var x = 2;");
}

#[test]
fn main_module_usage_skips_qrl_registrations() {
    let stmts = vec![
        MainStmt { call_callee: Some("componentQrl".to_string()), refs: strings(&["componentQrl", "a"]) },
        MainStmt { call_callee: Some("useTaskQrlDEV".to_string()), refs: strings(&["b"]) },
        MainStmt { call_callee: Some("render".to_string()), refs: strings(&["render", "c", "c"]) },
        MainStmt { call_callee: None, refs: strings(&["d", "c"]) },
    ];
    let mut usage = build_main_module_usage_set(&stmts, &Vec::new());
    usage.sort();
    assert_eq!(usage, strings(&["c", "d", "render"]));
}

#[test]
fn build_root_var_usage_map_finds_segment_using_var() {
    let root_deps = threshold_deps();
    let segments = vec![make_segment("s_abc", vec!["THRESHOLD"], Some("() => THRESHOLD > 50"))];
    let map = build_root_var_usage_map(&root_deps, &segments);
    let usages = &map.iter().find(|(k, _)| k == "THRESHOLD").expect("THRESHOLD should be in map").1;
    assert_eq!(usages, &[0usize]);
}

#[test]
fn find_migratable_vars_basic_single_segment() {
    let root_deps = threshold_deps();
    let segments = vec![make_segment("s_a", vec!["THRESHOLD"], Some("() => THRESHOLD"))];
    let usage_map = build_root_var_usage_map(&root_deps, &segments);
    let main_usage: Vec<String> = Vec::new();
    let result = find_migratable_vars(&root_deps, &usage_map, &main_usage);
    let group = result.iter().find(|(k, _)| *k == 0).expect("segment 0 gets a group");
    assert!(group.1.contains(&"THRESHOLD".to_string()));
}

#[test]
fn find_migratable_vars_shared_var_not_migrated() {
    let stmts = vec![vars(VarKind::Const, false, vec![declarator(Some("SHARED"), Some("42"), &[])])];
    let root_deps = analyze_root_dependencies(&stmts, &empty_global());
    let segments = vec![
        make_segment("s_a", vec!["SHARED"], Some("() => SHARED")),
        make_segment("s_b", vec!["SHARED"], Some("() => SHARED * 2")),
    ];
    let usage_map = build_root_var_usage_map(&root_deps, &segments);
    let main_usage: Vec<String> = Vec::new();
    let result = find_migratable_vars(&root_deps, &usage_map, &main_usage);
    for (_, vars) in result.iter() {
        assert!(!vars.contains(&"SHARED".to_string()));
    }
}

#[test]
fn contains_whole_word_basic() {
    assert!(contains_whole_word("THRESHOLD > 50", "THRESHOLD"));
    assert!(!contains_whole_word("THRESHOLD > 50", "THRESH"));
    assert!(!contains_whole_word("MY_THRESHOLD > 50", "THRESHOLD"));
}

#[test]
fn contains_whole_word_edges() {
    assert!(contains_whole_word("a", "a"));
    assert!(contains_whole_word("x.a(b)", "a"));
    assert!(!contains_whole_word("$a", "a"));
    assert!(!contains_whole_word("", "a"));
    assert!(contains_whole_word("", ""));
    assert!(contains_whole_word("é", ""));
    assert!(!contains_whole_word("ab", ""));
    assert!(contains_whole_word("ü a", "a"));
}

#[test]
fn usage_map_uses_local_idents_and_whole_words() {
    let root_deps = vec![
        decl("A", "const A = 1;", false, false, &[]),
        decl("B", "const B = 2;", false, false, &[]),
    ];
    let segments = vec![
        make_segment("s0", vec![], Some("() => A + AB")),
        make_segment("s1", vec!["B"], None),
        make_segment("s2", vec![], Some("() => B")),
    ];
    let map = build_root_var_usage_map(&root_deps, &segments);
    assert_eq!(map, vec![("A".to_string(), vec![0usize]), ("B".to_string(), vec![1usize, 2])]);
}

#[test]
fn migration_follows_dependencies() {
    // B depends on A; both used only by segment 1: both move there, sorted.
    // C depends on an exported D: moves. E depends on F, which stays (used twice): E stays.
    let root_deps = vec![
        decl("B", "const B = A + 1;", false, false, &["A"]),
        decl("A", "const A = 1;", false, false, &[]),
        decl("C", "const C = D;", false, false, &["D"]),
        decl("D", "export const D = 1;", false, true, &[]),
        decl("E", "const E = F;", false, false, &["F"]),
        decl("F", "const F = 2;", false, false, &[]),
        decl("G", "const G = Z;", false, false, &["Z"]),
    ];
    let usage_map = vec![
        ("B".to_string(), vec![1usize]),
        ("A".to_string(), vec![1usize]),
        ("C".to_string(), vec![0usize]),
        ("D".to_string(), vec![0usize]),
        ("E".to_string(), vec![2usize]),
        ("F".to_string(), vec![2usize, 3]),
        ("G".to_string(), vec![3usize]),
    ];
    let main_usage: Vec<String> = Vec::new();
    let result = find_migratable_vars(&root_deps, &usage_map, &main_usage);
    assert_eq!(
        result,
        vec![
            (0usize, vec!["C".to_string()]),
            (1usize, vec!["A".to_string(), "B".to_string()]),
            (3usize, vec!["G".to_string()]),
        ]
    );
}

#[test]
fn migration_blocked_by_main_usage_and_split_segments() {
    // H is used by the root module itself; I depends on J which moves elsewhere.
    let root_deps = vec![
        decl("H", "const H = 1;", false, false, &[]),
        decl("I", "const I = J;", false, false, &["J"]),
        decl("J", "const J = 1;", false, false, &[]),
        decl("K", "import K from 'k';", true, false, &[]),
    ];
    let usage_map = vec![
        ("H".to_string(), vec![0usize]),
        ("I".to_string(), vec![0usize]),
        ("J".to_string(), vec![1usize]),
        ("K".to_string(), vec![1usize]),
    ];
    let main_usage = vec!["H".to_string()];
    let result = find_migratable_vars(&root_deps, &usage_map, &main_usage);
    assert_eq!(result, vec![(1usize, vec!["J".to_string()])]);
}
