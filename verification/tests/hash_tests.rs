use qwik_optimizer_oxc::hash::{
    compute_file_hash_prefix, compute_segment_hash, compute_segment_hash_with_override,
    escape_sym, get_canonical_filename, parse_symbol_name, register_context_name, SegmentNames,
};
use qwik_optimizer_oxc::types::EmitMode;

#[test]
fn hash_golden_test_component() {
    let h = compute_segment_hash(None, "test.tsx", "test_component");
    assert_eq!(h, "LUXeXe0DQrg", "test_component hash mismatch");
}

#[test]
fn hash_golden_foo_component() {
    let h = compute_segment_hash(None, "test.tsx", "Foo_component");
    assert_eq!(h, "HTDRsvUbLiE", "Foo_component hash mismatch");
}

#[test]
fn hash_golden_foo_component_sig_use_async() {
    let h = compute_segment_hash(None, "test.tsx", "Foo_component_sig_useAsync");
    assert_eq!(h, "f0BGwWm4eeY", "Foo_component_sig_useAsync hash mismatch");
}

#[test]
fn hash_golden_foo_component_other_use_async() {
    let h = compute_segment_hash(None, "test.tsx", "Foo_component_other_useAsync");
    assert_eq!(h, "fsHooibmyyE", "Foo_component_other_useAsync hash mismatch");
}

#[test]
fn hash_always_11_chars() {
    let h = compute_segment_hash(None, "test.tsx", "test_component");
    assert_eq!(h.len(), 11, "hash must be 11 chars, got {h:?}");
}

#[test]
fn hash_alphanumeric_only() {
    let h = compute_segment_hash(None, "test.tsx", "test_component");
    assert!(
        h.chars().all(|c| c.is_ascii_alphanumeric()),
        "hash must be alphanumeric (no - or _), got {h:?}"
    );
}

#[test]
fn hash_scope_changes_output() {
    let without_scope = compute_segment_hash(None, "test.tsx", "test_component");
    let with_scope = compute_segment_hash(Some("my-pkg"), "test.tsx", "test_component");
    assert_ne!(without_scope, with_scope, "scope must change the hash");
}

#[test]
fn hash_deterministic() {
    let h1 = compute_segment_hash(None, "test.tsx", "test_component");
    let h2 = compute_segment_hash(None, "test.tsx", "test_component");
    assert_eq!(h1, h2, "hash must be deterministic");
}

#[test]
fn hash_override_bypasses_normal_inputs() {
    let normal = compute_segment_hash_with_override(None, "test.tsx", "test_component", None);
    let overridden = compute_segment_hash_with_override(
        Some("some-scope"),
        "completely-different.tsx",
        "different_name",
        Some("my-override"),
    );
    let overridden2 = compute_segment_hash_with_override(
        Some("some-scope"),
        "completely-different.tsx",
        "different_name",
        Some("other-override"),
    );
    assert_ne!(normal, overridden);
    assert_ne!(overridden, overridden2);
    let overridden3 =
        compute_segment_hash_with_override(None, "test.tsx", "test_component", Some("my-override"));
    assert_eq!(overridden, overridden3);
}

#[test]
fn hash_shape_holds_for_unusual_inputs() {
    for (scope, path, name) in [
        (None, "", ""),
        (Some("ünïcode"), "src/x.tsx", "a-b_c"),
        (Some(""), "very/long/path/to/some/deeply/nested/file.tsx", "Foo_component_onClick"),
    ] {
        let h = compute_segment_hash(scope, path, name);
        assert_eq!(h.len(), 11);
        assert!(h.chars().all(|c| c.is_ascii_alphanumeric()));
    }
}

#[test]
fn file_hash_prefix_is_two_chars_of_path_hash() {
    let p = compute_file_hash_prefix(None, "test.tsx");
    assert_eq!(p.len(), 2);
    assert!(p.chars().all(|c| c.is_ascii_alphanumeric()));
    assert_eq!(p, compute_file_hash_prefix(None, "test.tsx"));
    assert_eq!(
        compute_file_hash_prefix(None, "test.tsx"),
        compute_segment_hash(None, "test.tsx", "")[..2]
    );
}

#[test]
fn escape_sym_replaces_non_alnum_with_underscore() {
    assert_eq!(escape_sym("my-component.handler"), "my_component_handler");
}

#[test]
fn escape_sym_trims_leading_underscores() {
    assert_eq!(escape_sym("---foo"), "foo");
}

#[test]
fn escape_sym_digit_prefix() {
    assert_eq!(escape_sym("123click"), "_123click");
}

#[test]
fn escape_sym_already_valid() {
    assert_eq!(escape_sym("already_valid"), "already_valid");
}

#[test]
fn escape_sym_empty() {
    assert_eq!(escape_sym(""), "");
}

#[test]
fn escape_sym_all_special_chars() {
    assert_eq!(escape_sym("---"), "");
}

#[test]
fn escape_sym_squashes_and_trims_both_ends() {
    assert_eq!(escape_sym("__a  b__c--"), "a_b_c");
    assert_eq!(escape_sym("ünï"), "n");
    assert_eq!(escape_sym("9"), "_9");
}

#[test]
fn canonical_filename_extracts_hash_from_symbol() {
    let cf = get_canonical_filename("test.tsx_test_component", "test_component_LUXeXe0DQrg");
    assert_eq!(cf, "test.tsx_test_component_LUXeXe0DQrg");
}

#[test]
fn canonical_filename_handles_nested_segment() {
    let cf = get_canonical_filename(
        "test.tsx_Foo_component_sig_useAsync",
        "Foo_component_sig_useAsync_f0BGwWm4eeY",
    );
    assert_eq!(cf, "test.tsx_Foo_component_sig_useAsync_f0BGwWm4eeY");
}

#[test]
fn canonical_filename_without_underscore_uses_whole_symbol() {
    assert_eq!(get_canonical_filename("d", "abc"), "d_abc");
}

#[test]
fn register_context_name_basic_dev_mode() {
    let mut names = SegmentNames::new();
    let stack = vec!["test".to_string(), "component".to_string()];
    let result = register_context_name(
        &stack, &mut names, None, "test.tsx", "test.tsx", &EmitMode::Lib, None, None, None,
    );
    assert_eq!(result.hash, "LUXeXe0DQrg");
    assert_eq!(result.display_name, "test.tsx_test_component");
    assert_eq!(result.symbol_name, "test_component_LUXeXe0DQrg");
    assert_eq!(result.canonical_filename, "test.tsx_test_component_LUXeXe0DQrg");
}

#[test]
fn register_context_name_prod_mode_uses_mangled_symbol() {
    let mut names = SegmentNames::new();
    let stack = vec!["test".to_string(), "component".to_string()];
    let result = register_context_name(
        &stack, &mut names, None, "test.tsx", "test.tsx", &EmitMode::Prod, None, None, None,
    );
    assert_eq!(result.symbol_name, format!("s_{}", result.hash));
    assert_eq!(result.display_name, "test.tsx_test_component");
}

#[test]
fn register_context_name_collision_counter() {
    let mut names = SegmentNames::new();
    let stack = vec!["test".to_string(), "component".to_string()];
    let r1 = register_context_name(
        &stack, &mut names, None, "test.tsx", "test.tsx", &EmitMode::Lib, None, None, None,
    );
    let r2 = register_context_name(
        &stack, &mut names, None, "test.tsx", "test.tsx", &EmitMode::Lib, None, None, None,
    );
    let r3 = register_context_name(
        &stack, &mut names, None, "test.tsx", "test.tsx", &EmitMode::Lib, None, None, None,
    );
    assert!(r1.display_name.ends_with("_test_component"));
    assert!(r2.display_name.ends_with("_test_component_1"));
    assert!(r3.display_name.ends_with("_test_component_2"));
}

#[test]
fn register_context_name_file_name_is_raw() {
    let mut names = SegmentNames::new();
    let stack = vec!["component".to_string()];
    let result = register_context_name(
        &stack, &mut names, None, "test.tsx", "test.tsx", &EmitMode::Lib, None, None, None,
    );
    assert!(result.display_name.starts_with("test.tsx_"));
}

#[test]
fn register_context_name_canonical_filename_is_display_name_plus_hash() {
    let mut names = SegmentNames::new();
    let stack = vec!["test".to_string(), "component".to_string()];
    let result = register_context_name(
        &stack, &mut names, None, "test.tsx", "test.tsx", &EmitMode::Lib, None, None, None,
    );
    assert_eq!(result.canonical_filename, format!("{}_{}", result.display_name, result.hash));
}

#[test]
fn register_context_name_custom_symbol_and_overrides() {
    let mut names = SegmentNames::new();
    let stack = vec!["ignored".to_string()];
    let r = register_context_name(
        &stack, &mut names, None, "test.tsx", "test.tsx", &EmitMode::Dev, Some("mySym"), None, None,
    );
    assert_eq!(r.display_name, "test.tsx_mySym");
    assert_eq!(r.hash, compute_segment_hash(None, "test.tsx", "mySym"));
    assert_eq!(r.symbol_name, format!("mySym_{}", r.hash));
    assert_eq!(names.len(), 0);
    let r2 = register_context_name(
        &stack, &mut names, None, "test.tsx", "test.tsx", &EmitMode::Dev, None, Some("other"),
        None,
    );
    assert_eq!(r2.display_name, "test.tsx_ignored");
    assert_eq!(r2.hash, compute_segment_hash(None, "test.tsx", "other"));
    let r3 = register_context_name(
        &stack, &mut names, None, "test.tsx", "test.tsx", &EmitMode::Dev, None, None,
        Some("h"),
    );
    assert_eq!(r3.display_name, "test.tsx_ignored_1");
    assert_eq!(r3.hash, compute_segment_hash_with_override(None, "", "", Some("h")));
}

#[test]
fn parse_symbol_name_prod_mode() {
    let (sym, display, hash) = parse_symbol_name("test_component_ABC", &EmitMode::Prod, "test.tsx");
    assert_eq!(sym, "s_ABC");
    assert_eq!(display, "test.tsx_test_component");
    assert_eq!(hash, "ABC");
}

#[test]
fn parse_symbol_name_dev_mode_unchanged() {
    let (sym, display, hash) = parse_symbol_name("test_component_ABC", &EmitMode::Dev, "test.tsx");
    assert_eq!(sym, "test_component_ABC");
    assert_eq!(display, "test.tsx_test_component");
    assert_eq!(hash, "ABC");
}

#[test]
fn parse_symbol_name_no_underscore() {
    let (sym, display, hash) = parse_symbol_name("singleword", &EmitMode::Prod, "f.tsx");
    assert_eq!(sym, "s_");
    assert_eq!(display, "f.tsx_singleword");
    assert_eq!(hash, "");
}

#[test]
fn hash_depends_on_the_concatenated_bytes_only() {
    assert_eq!(
        compute_segment_hash(Some("scope"), "test.tsx", "c"),
        compute_segment_hash(None, "scopetest.tsx", "c")
    );
    assert_eq!(
        compute_segment_hash(None, "test.tsx", "test_component"),
        compute_segment_hash(None, "", "test.tsxtest_component")
    );
}

#[test]
fn escaped_symbols_are_normal() {
    for s in ["a--b", "__x__", "9lives", "---", "ok_name", "a b  c_"] {
        let r = escape_sym(s);
        assert_eq!(escape_sym(&r), r);
        assert!(!r.contains("__"));
        assert!(!r.ends_with('_'));
        assert!(r.chars().all(|c| c.is_ascii_alphanumeric() || c == '_'));
    }
    assert_eq!(escape_sym("---"), "");
    assert_eq!(escape_sym("9lives"), "_9lives");
}

#[test]
fn parsing_a_registered_symbol_name_gives_it_back() {
    let mut names = SegmentNames::new();
    let stack = vec!["App".to_string(), "component".to_string()];
    let r = register_context_name(&stack, &mut names, None, "test.tsx", "test.tsx", &EmitMode::Dev, None, None, None);
    let (sym, display, hash) = parse_symbol_name(&r.symbol_name, &EmitMode::Dev, "test.tsx");
    assert_eq!(sym, r.symbol_name);
    assert_eq!(display, r.display_name);
    assert_eq!(hash, r.hash);
}
