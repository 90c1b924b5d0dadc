use qwik_optimizer_oxc::collector::GlobalCollect;
use qwik_optimizer_oxc::dependency_analysis::{MainStmt, RootDeclarator, RootStmt, VarKind};
use qwik_optimizer_oxc::migration::apply_variable_migration;
use qwik_optimizer_oxc::module_output::SegmentRecord;
use qwik_optimizer_oxc::types::CtxKind;

fn strings(v: &[&str]) -> Vec<String> {
    v.iter().map(|s| s.to_string()).collect()
}

fn segment(name: &str, local: &[&str], scoped: &[&str], expr: &str) -> SegmentRecord {
    SegmentRecord {
        name: name.to_string(),
        display_name: name.to_string(),
        canonical_filename: name.to_string(),
        entry: None,
        expr: Some(expr.to_string()),
        scoped_idents: strings(scoped),
        local_idents: strings(local),
        ctx_name: "component$".to_string(),
        ctx_kind: CtxKind::Function,
        origin: "test.tsx".to_string(),
        span: (0, 0),
        hash: "abc12345678".to_string(),
        is_inline: false,
        migrated_root_vars: Vec::new(),
        parent: None,
        pending_parent_span: None,
        param_names: None,
    }
}

fn const_decl(name: &str, init: &str, refs: &[&str]) -> RootStmt {
    RootStmt::Vars {
        kind: VarKind::Const,
        declarators: vec![RootDeclarator {
            name: Some(name.to_string()),
            init: Some(init.to_string()),
            init_refs: strings(refs),
        }],
        exported: false,
    }
}

fn main_stmt(callee: Option<&str>, refs: &[&str]) -> MainStmt {
    MainStmt { call_callee: callee.map(|s| s.to_string()), refs: strings(refs) }
}

/// const THRESHOLD = 100; const SHARED = 1; const _qrl_a = qrl(...); const i_b = 1;
/// componentQrl(_qrl_c); render(i_b);
fn module() -> (Vec<RootStmt>, Vec<MainStmt>, Vec<Vec<String>>) {
    let root = vec![
        const_decl("THRESHOLD", "100", &[]),
        const_decl("SHARED", "1", &[]),
        const_decl("_qrl_a", "qrl(() => import(\"./a\"), \"a\")", &["qrl"]),
        const_decl("i_b", "1", &[]),
        RootStmt::Other,
        RootStmt::Other,
    ];
    let main = vec![
        main_stmt(None, &[]),
        main_stmt(None, &[]),
        main_stmt(None, &["qrl"]),
        main_stmt(None, &[]),
        main_stmt(Some("componentQrl"), &["componentQrl", "_qrl_c"]),
        main_stmt(Some("render"), &["render", "i_b"]),
    ];
    (root, main, vec![Vec::new(); 6])
}

#[test]
fn migration_moves_single_use_declaration() {
    let (root, main, exports) = module();
    let mut segments = vec![
        segment("s_a", &["THRESHOLD", "SHARED"], &["THRESHOLD"], "() => THRESHOLD + SHARED"),
        segment("s_b", &["SHARED"], &[], "() => SHARED"),
    ];
    let kept = apply_variable_migration(&root, &main, &exports, &GlobalCollect::new_empty(), &mut segments);
    // THRESHOLD moves into s_a; the unused `_qrl_a` goes; `i_b` is still used
    assert_eq!(kept, vec![false, true, false, true, true, true]);
    assert_eq!(segments[0].migrated_root_vars, strings(&["const THRESHOLD = 100;"]));
    assert_eq!(segments[0].local_idents, strings(&["SHARED"]));
    assert!(segments[0].scoped_idents.is_empty());
    assert!(segments[1].migrated_root_vars.is_empty());
    assert_eq!(segments[1].local_idents, strings(&["SHARED"]));
    assert_eq!(segments[0].expr.as_deref(), Some("() => THRESHOLD + SHARED"));
}

#[test]
fn migration_without_candidates_changes_nothing() {
    let (root, mut main, exports) = module();
    // the root module itself reads THRESHOLD: nothing can move
    main[5] = main_stmt(Some("render"), &["render", "i_b", "THRESHOLD"]);
    let mut segments = vec![segment("s_a", &["THRESHOLD"], &["THRESHOLD"], "() => THRESHOLD")];
    let kept = apply_variable_migration(&root, &main, &exports, &GlobalCollect::new_empty(), &mut segments);
    assert_eq!(kept, vec![true; 6]);
    assert_eq!(segments[0].local_idents, strings(&["THRESHOLD"]));
    assert_eq!(segments[0].scoped_idents, strings(&["THRESHOLD"]));
    assert!(segments[0].migrated_root_vars.is_empty());
}

#[test]
fn migration_removes_export_of_migrated_names_only() {
    let (root, main, mut exports) = module();
    let mut root = root;
    let mut main = main;
    // an `export { THRESHOLD }` whose references the usage scan does not see
    root.push(RootStmt::Other);
    main.push(main_stmt(Some("registerQrl"), &["THRESHOLD"]));
    exports.push(strings(&["THRESHOLD"]));
    let mut segments = vec![segment("s_a", &["THRESHOLD"], &[], "() => THRESHOLD")];
    let kept = apply_variable_migration(&root, &main, &exports, &GlobalCollect::new_empty(), &mut segments);
    assert_eq!(kept, vec![false, true, false, true, true, true, false]);
}
