use qwik_optimizer_oxc::collector::{
    global_collect, pattern_bindings, Binding, BindingPattern, GlobalCollect, Import, ImportKind, ImportSpec, ModuleStmt,
};

fn named(local: &str, imported: &str) -> ImportSpec {
    ImportSpec::Named { local: local.to_string(), imported: imported.to_string() }
}

fn import(source: &str, specifiers: Vec<ImportSpec>) -> ModuleStmt {
    ModuleStmt::Import { source: source.to_string(), specifiers }
}

fn binding(name: &str, start: u32) -> Binding {
    Binding { name: name.to_string(), span: (start, start + name.len() as u32) }
}

fn declares(bindings: Vec<Binding>) -> ModuleStmt {
    ModuleStmt::Other { declared: bindings }
}

/// `import { foo } from "bar";`
fn import_foo_from_bar() -> GlobalCollect {
    global_collect(&vec![import("bar", vec![named("foo", "foo")])])
}

/// `import { $ } from '@qwik.dev/core';`
fn import_dollar() -> GlobalCollect {
    global_collect(&vec![import("@qwik.dev/core", vec![named("$", "$")])])
}

/// `const x = 1;`
fn const_x() -> GlobalCollect {
    global_collect(&vec![declares(vec![binding("x", 6)])])
}

#[test]
fn named_import_populates_imports() {
    let gc = import_foo_from_bar();
    let imp = gc.imports.get("foo").expect("foo not found in imports");
    assert_eq!(imp.source, "bar");
    assert_eq!(imp.specifier, "foo");
    assert_eq!(imp.kind, ImportKind::Named);
    assert!(!imp.synthetic);
}

#[test]
fn import_dollar_from_qwik_core() {
    let gc = import_dollar();
    let imp = gc.imports.get("$").expect("$ not found in imports");
    assert_eq!(imp.source, "@qwik.dev/core");
    assert_eq!(imp.specifier, "$");
    assert_eq!(imp.kind, ImportKind::Named);
}

#[test]
fn default_import_populates_imports() {
    // import Def from "bar";
    let gc = global_collect(&vec![import("bar", vec![ImportSpec::Default { local: "Def".to_string() }])]);
    let imp = gc.imports.get("Def").expect("Def not found in imports");
    assert_eq!(imp.source, "bar");
    assert_eq!(imp.specifier, "default");
    assert_eq!(imp.kind, ImportKind::Default);
}

#[test]
fn namespace_import_populates_imports() {
    // import * as ns from "bar";
    let gc = global_collect(&vec![import("bar", vec![ImportSpec::Namespace { local: "ns".to_string() }])]);
    let imp = gc.imports.get("ns").expect("ns not found in imports");
    assert_eq!(imp.source, "bar");
    assert_eq!(imp.specifier, "*");
    assert_eq!(imp.kind, ImportKind::Namespace);
}

#[test]
fn import_does_not_appear_in_root() {
    let gc = import_foo_from_bar();
    assert!(!gc.root.contains_key("foo"), "Import bindings must NOT appear in root");
}

#[test]
fn named_export_specifier_populates_exports() {
    // const foo = 1; export { foo };
    let gc = global_collect(&vec![
        declares(vec![binding("foo", 6)]),
        ModuleStmt::ExportNamed { exported: vec!["foo".to_string()], declared: Vec::new() },
    ]);
    assert!(gc.exports.contains_key("foo"), "export {{ foo }} must populate exports");
}

#[test]
fn export_const_populates_exports_and_root() {
    // export const Foo = 1;
    let gc = global_collect(&vec![ModuleStmt::ExportNamed { exported: Vec::new(), declared: vec![binding("Foo", 13)] }]);
    assert!(gc.exports.contains_key("Foo"), "export const Foo must populate exports");
    assert!(gc.root.contains_key("Foo"), "export const Foo must also populate root");
}

#[test]
fn export_function_populates_exports() {
    // export function f() {}
    let gc = global_collect(&vec![ModuleStmt::ExportNamed { exported: Vec::new(), declared: vec![binding("f", 16)] }]);
    assert!(gc.exports.contains_key("f"), "export function f must populate exports");
}

#[test]
fn export_default_function_populates_exports() {
    // export default function Foo() {}
    let gc = global_collect(&vec![ModuleStmt::ExportDefault { named: Some(binding("Foo", 24)) }]);
    assert!(gc.exports.contains_key("default"), "export default must insert 'default' key into exports");
    assert!(gc.root.contains_key("Foo"));
}

#[test]
fn plain_const_populates_root() {
    // const bar = 2;
    let gc = global_collect(&vec![declares(vec![binding("bar", 6)])]);
    assert!(gc.root.contains_key("bar"), "const bar must appear in root");
}

#[test]
fn plain_const_and_function_populate_root() {
    // const y = 2; function g() {}
    let gc = global_collect(&vec![declares(vec![binding("y", 6)]), declares(vec![binding("g", 22)])]);
    assert!(gc.root.contains_key("y"), "const y must appear in root");
    assert!(gc.root.contains_key("g"), "function g must appear in root");
}

#[test]
fn import_declaration_does_not_appear_in_root() {
    // import { foo } from "bar"; const x = 1;
    let gc = global_collect(&vec![import("bar", vec![named("foo", "foo")]), declares(vec![binding("x", 33)])]);
    assert!(!gc.root.contains_key("foo"), "Import 'foo' must NOT appear in root");
    assert!(gc.root.contains_key("x"), "Plain const 'x' must appear in root");
}

#[test]
fn get_imported_local_returns_local_name() {
    let gc = import_foo_from_bar();
    let local = gc.get_imported_local("foo", "bar");
    assert_eq!(local, Some("foo"), "get_imported_local should return 'foo'");
}

#[test]
fn get_imported_local_returns_none_for_missing() {
    let gc = import_foo_from_bar();
    let local = gc.get_imported_local("missing", "bar");
    assert_eq!(local, None, "get_imported_local should return None for unknown specifier");
}

#[test]
fn get_imported_local_wrong_source_returns_none() {
    let gc = import_foo_from_bar();
    let local = gc.get_imported_local("foo", "wrong-source");
    assert_eq!(local, None, "get_imported_local should return None for wrong source");
}

#[test]
fn is_import_true_for_imported_name() {
    let gc = import_dollar();
    assert!(gc.is_import("$"), "$ should be recognized as an import");
}

#[test]
fn is_import_false_for_root_decl() {
    let gc = const_x();
    assert!(!gc.is_import("x"), "x should NOT be recognized as an import");
}

#[test]
fn get_import_returns_info() {
    let gc = import_dollar();
    let imp = gc.get_import("$").expect("$ should be found");
    assert_eq!(imp.source, "@qwik.dev/core");
}

#[test]
fn get_import_returns_none_for_non_import() {
    let gc = const_x();
    assert!(gc.get_import("x").is_none());
}

#[test]
fn add_synthetic_import_adds_to_imports() {
    let mut gc = GlobalCollect::new_empty();
    gc.add_synthetic_import(
        "_restProps".to_string(),
        Import {
            source: "@qwik.dev/core".to_string(),
            specifier: "_restProps".to_string(),
            kind: ImportKind::Named,
            synthetic: true,
        },
    );
    assert!(gc.is_import("_restProps"));
    assert_eq!(gc.synthetic.len(), 1);
}

#[test]
fn add_synthetic_import_deduplicates() {
    let mut gc = GlobalCollect::new_empty();
    let imp = Import {
        source: "@qwik.dev/core".to_string(),
        specifier: "_restProps".to_string(),
        kind: ImportKind::Named,
        synthetic: true,
    };
    gc.add_synthetic_import("_restProps".to_string(), imp.clone());
    gc.add_synthetic_import("_restProps2".to_string(), imp);
    // Second call is no-op because (specifier, source) already exists
    assert_eq!(gc.synthetic.len(), 1);
}

#[test]
fn collect_orders_and_queries() {
    // import { a as b, c } from "m"; export { b, z as y }; export * from "n";
    // let p, q; export default 1; export const q2 = 0; let p;
    let gc = global_collect(&vec![
        import("m", vec![named("b", "a"), named("c", "c")]),
        ModuleStmt::ExportNamed { exported: vec!["b".to_string(), "y".to_string()], declared: Vec::new() },
        ModuleStmt::ExportAll,
        declares(vec![binding("p", 4), binding("q", 7)]),
        ModuleStmt::ExportDefault { named: None },
        ModuleStmt::ExportNamed { exported: Vec::new(), declared: vec![binding("q2", 13)] },
        declares(vec![binding("p", 50)]),
    ]);
    let imports: Vec<&str> = gc.imports.keys().map(|k| k.as_str()).collect();
    assert_eq!(imports, vec!["b", "c"]);
    assert_eq!(gc.get_imported_local("a", "m"), Some("b"));
    let exports: Vec<&str> = gc.exports.keys().map(|k| k.as_str()).collect();
    assert_eq!(exports, vec!["b", "y", "default", "q2"]);
    let root: Vec<(&str, (u32, u32))> = gc.root.iter().map(|(k, v)| (k.as_str(), *v)).collect();
    // a later declaration keeps the first place and takes the new span
    assert_eq!(root, vec![("p", (50, 51)), ("q", (7, 8)), ("q2", (13, 15))]);
    assert_eq!(gc.export_local_ids(), vec!["q2".to_string()]);
    assert!(gc.is_global("c") && gc.is_global("y") && gc.is_global("p") && !gc.is_global("zz"));
    assert!(gc.has_export_symbol("default") && !gc.has_export_symbol("c"));
}

#[test]
fn destructuring_patterns_bind_their_names_in_order() {
    // const { a, b: [c, , d = 1], ...e } = x;
    let p = BindingPattern::Object {
        properties: vec![
            BindingPattern::Identifier(binding("a", 8)),
            BindingPattern::Array {
                elements: vec![
                    Some(BindingPattern::Identifier(binding("c", 15))),
                    None,
                    Some(BindingPattern::Assignment { left: Box::new(BindingPattern::Identifier(binding("d", 20))) }),
                ],
                rest: None,
            },
        ],
        rest: Some(Box::new(BindingPattern::Identifier(binding("e", 32)))),
    };
    let mut out = Vec::new();
    pattern_bindings(&p, &mut out);
    let names: Vec<&str> = out.iter().map(|b| b.name.as_str()).collect();
    assert_eq!(names, vec!["a", "c", "d", "e"]);
    assert_eq!(out[1].span, (15, 16));
}
