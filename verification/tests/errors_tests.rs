use qwik_optimizer_oxc::errors::{create_error, create_source_error, create_warning};
use qwik_optimizer_oxc::types::DiagnosticCategory;

#[test]
fn test_create_source_error() {
    let d = create_source_error("parse error", "test.tsx");
    assert_eq!(d.scope, "optimizer");
    assert_eq!(d.file, "test.tsx");
    assert_eq!(d.message, "parse error");
    assert!(matches!(d.category, DiagnosticCategory::SourceError));
}

#[test]
fn test_create_error() {
    let d = create_error("transform error", "app.tsx");
    assert!(matches!(d.category, DiagnosticCategory::Error));
}

#[test]
fn test_create_warning() {
    let d = create_warning("deprecated usage", "old.tsx");
    assert!(matches!(d.category, DiagnosticCategory::Warning));
}

#[test]
fn diagnostics_have_no_code_highlights_or_suggestions() {
    let d = create_warning("w", "f.ts");
    assert!(d.code.is_none());
    assert!(d.highlights.is_none());
    assert!(d.suggestions.is_none());
    assert_eq!(d.scope, "optimizer");
    assert_eq!(d.message, "w");
    assert_eq!(d.file, "f.ts");
}
