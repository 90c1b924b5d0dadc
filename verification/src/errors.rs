//! Helpers that build `Diagnostic` values with consistent fields.

use vstd::prelude::*;

use crate::types::{Diagnostic, DiagnosticCategory};

verus! {

/// The diagnostic that `create_*` gives for `category`, `message` and `file`:
/// scope "optimizer", no code, no highlights, no suggestions.
pub open spec fn is_plain_diagnostic(
    d: Diagnostic,
    category: DiagnosticCategory,
    message: Seq<char>,
    file: Seq<char>,
) -> bool {
    &&& d.scope@ == seq!['o', 'p', 't', 'i', 'm', 'i', 'z', 'e', 'r']
    &&& d.category == category
    &&& d.code is None
    &&& d.file@ == file
    &&& d.message@ == message
    &&& d.highlights is None
    &&& d.suggestions is None
}

fn plain_diagnostic(category: DiagnosticCategory, message: &str, file: &str) -> (d: Diagnostic)
    ensures
        is_plain_diagnostic(d, category, message@, file@),
{
    let scope = String::from_str("optimizer");
    proof {
        reveal_strlit("optimizer");
    }
    assert(scope@ =~= seq!['o', 'p', 't', 'i', 'm', 'i', 'z', 'e', 'r']);
    Diagnostic {
        scope,
        category,
        code: None,
        file: String::from_str(file),
        message: String::from_str(message),
        highlights: None,
        suggestions: None,
    }
}

/// A source error diagnostic (e.g. a syntax error).
pub fn create_source_error(message: &str, file: &str) -> (d: Diagnostic)
    ensures
        is_plain_diagnostic(d, DiagnosticCategory::SourceError, message@, file@),
{
    plain_diagnostic(DiagnosticCategory::SourceError, message, file)
}

/// A general error diagnostic.
pub fn create_error(message: &str, file: &str) -> (d: Diagnostic)
    ensures
        is_plain_diagnostic(d, DiagnosticCategory::Error, message@, file@),
{
    plain_diagnostic(DiagnosticCategory::Error, message, file)
}

/// A warning diagnostic.
pub fn create_warning(message: &str, file: &str) -> (d: Diagnostic)
    ensures
        is_plain_diagnostic(d, DiagnosticCategory::Warning, message@, file@),
{
    plain_diagnostic(DiagnosticCategory::Warning, message, file)
}

} // verus!
