use qwik_optimizer_oxc::collector::{global_collect, GlobalCollect, ImportSpec, ModuleStmt};
use qwik_optimizer_oxc::item_order::HoistedConst;
use qwik_optimizer_oxc::segment_module::{generate_imports, new_module, try_new_module, NewModuleCtx};

fn named(local: &str, imported: &str) -> ImportSpec {
    ImportSpec::Named { local: local.to_string(), imported: imported.to_string() }
}

/// `import { foo } from "bar"; import { a as x } from "m"; export { exp };`
fn parent() -> GlobalCollect {
    global_collect(&vec![
        ModuleStmt::Import { source: "bar".to_string(), specifiers: vec![named("foo", "foo")] },
        ModuleStmt::Import { source: "m".to_string(), specifiers: vec![named("x", "a")] },
        ModuleStmt::ExportNamed { exported: vec!["exp".to_string()], declared: vec![] },
    ])
}

fn strings(v: &[&str]) -> Vec<String> {
    v.iter().map(|s| s.to_string()).collect()
}

#[test]
fn imports_resolve_by_local_name_specifier_and_export() {
    let g = parent();
    let r = generate_imports(&strings(&["foo", "exp", "nothing", "a"]), &g, "app", false, "@qwik.dev/core");
    assert_eq!(
        r,
        vec![
            r#"import { a } from "m";"#.to_string(),
            r#"import { exp } from "./app";"#.to_string(),
            r#"import { foo } from "bar";"#.to_string(),
        ]
    );
}

#[test]
fn imports_of_the_parent_file_name_the_extension_when_asked() {
    let g = parent();
    let r = generate_imports(&strings(&["exp"]), &g, "app", true, "@qwik.dev/core");
    assert_eq!(r, vec![r#"import { exp } from "./app.js";"#.to_string()]);
}

#[test]
fn a_pair_imported_twice_gets_an_aliased_local() {
    let g = parent();
    let r = generate_imports(&strings(&["x", "a"]), &g, "app", false, "@qwik.dev/core");
    assert_eq!(
        r,
        vec![r#"import { a } from "m";"#.to_string(), r#"import { a as _x_1 } from "m";"#.to_string()]
    );
}

#[test]
fn a_name_listed_twice_is_imported_twice() {
    let g = parent();
    let r = generate_imports(&strings(&["foo", "foo"]), &g, "app", false, "@qwik.dev/core");
    assert_eq!(
        r,
        vec![r#"import { foo } from "bar";"#.to_string(), r#"import { foo as _foo_1 } from "bar";"#.to_string()]
    );
}

#[test]
fn new_module_basic_no_captures() {
    let global = GlobalCollect::new_empty();
    let extra: Vec<HoistedConst> = vec![];
    let ctx = NewModuleCtx {
        expr: "() => 42",
        name: "s_test",
        file_stem: "app",
        local_idents: &[],
        scoped_idents: &[],
        global: &global,
        core_module: "@qwik.dev/core",
        explicit_extensions: false,
        extra_top_items: &extra,
        migrated_root_vars: &[],
        synthetic_imports: &[],
    };
    let result = new_module(&ctx);
    assert!(result.contains("export const s_test"));
    assert!(!result.contains("_captures"));
    assert_eq!(result, "export const s_test = () => 42;");
}

#[test]
fn new_module_with_captures() {
    let global = GlobalCollect::new_empty();
    let extra: Vec<HoistedConst> = vec![];
    let scoped = vec!["count".to_string()];
    let ctx = NewModuleCtx {
        expr: "() => count",
        name: "s_abc",
        file_stem: "app",
        local_idents: &[],
        scoped_idents: &scoped,
        global: &global,
        core_module: "@qwik.dev/core",
        explicit_extensions: false,
        extra_top_items: &extra,
        migrated_root_vars: &[],
        synthetic_imports: &[],
    };
    let result = new_module(&ctx);
    assert!(result.contains(r#"import { _captures } from "@qwik.dev/core";"#));
    assert!(result.contains("export const s_abc"));
}

#[test]
fn new_module_imports_used_names_and_appends_moved_declarations() {
    let global = parent();
    let extra: Vec<HoistedConst> = vec![];
    let local = vec!["foo".to_string()];
    let migrated = vec!["  const y = 1;  ".to_string(), "   ".to_string()];
    let synthetic = vec![r#"import { _useHmr } from "@qwik.dev/core";"#.to_string()];
    let ctx = NewModuleCtx {
        expr: "() => foo(y)",
        name: "s_test",
        file_stem: "app",
        local_idents: &local,
        scoped_idents: &[],
        global: &global,
        core_module: "@qwik.dev/core",
        explicit_extensions: false,
        extra_top_items: &extra,
        migrated_root_vars: &migrated,
        synthetic_imports: &synthetic,
    };
    let result = new_module(&ctx);
    assert_eq!(
        result,
        "import { foo } from \"bar\";\nimport { _useHmr } from \"@qwik.dev/core\";\nconst y = 1;\nexport const s_test = () => foo(y);"
    );
}

#[test]
fn new_module_defines_the_hoisted_constants_it_needs() {
    let global = GlobalCollect::new_empty();
    let extra = vec![
        HoistedConst {
            name: "q_a".to_string(),
            rhs_code: " x + 1 ".to_string(),
            symbol_name: "q_a".to_string(),
            is_root_level: false,
        },
        HoistedConst {
            name: "q_unused".to_string(),
            rhs_code: "2".to_string(),
            symbol_name: "q_unused".to_string(),
            is_root_level: false,
        },
    ];
    let ctx = NewModuleCtx {
        expr: "() => q_a",
        name: "s_test",
        file_stem: "app",
        local_idents: &[],
        scoped_idents: &[],
        global: &global,
        core_module: "@qwik.dev/core",
        explicit_extensions: false,
        extra_top_items: &extra,
        migrated_root_vars: &[],
        synthetic_imports: &[],
    };
    let result = new_module(&ctx);
    assert_eq!(result, "const q_a = x + 1;\nexport const s_test = () => q_a;");
}

#[test]
fn new_module_declares_hoisted_qrls() {
    let global = GlobalCollect::new_empty();
    let extra: Vec<HoistedConst> = vec![];
    let ctx = NewModuleCtx {
        expr: r#"qrl(() => import("./x"), "s_abc")"#,
        name: "s_test",
        file_stem: "app",
        local_idents: &[],
        scoped_idents: &[],
        global: &global,
        core_module: "@qwik.dev/core",
        explicit_extensions: false,
        extra_top_items: &extra,
        migrated_root_vars: &[],
        synthetic_imports: &[],
    };
    let result = new_module(&ctx);
    assert!(result.starts_with("var s_abc = "));
    assert!(result.ends_with("export const s_test = s_abc;"));
}

#[test]
fn try_new_module_builds_ordinary_modules() {
    let global = GlobalCollect::new_empty();
    let extra: Vec<HoistedConst> = vec![];
    let ctx = NewModuleCtx {
        expr: "() => 42",
        name: "s_test",
        file_stem: "app",
        local_idents: &[],
        scoped_idents: &[],
        global: &global,
        core_module: "@qwik.dev/core",
        explicit_extensions: false,
        extra_top_items: &extra,
        migrated_root_vars: &[],
        synthetic_imports: &[],
    };
    assert_eq!(try_new_module(&ctx), Some("export const s_test = () => 42;".to_string()));
}
