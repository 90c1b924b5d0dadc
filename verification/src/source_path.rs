//! Source file paths: language detection, output extensions and path decomposition.

use vstd::prelude::*;

use crate::text::chars_of;

verus! {

// ---------------------------------------------------------------------------
// Names for what std::path computes
// ---------------------------------------------------------------------------

/// What `std::path::Path::file_name` gives for a path, as text.
pub uninterp spec fn path_file_name(path: Seq<char>) -> Option<Seq<char>>;

/// What `std::path::Path::file_stem` gives for a path, as text.
pub uninterp spec fn path_file_stem(path: Seq<char>) -> Option<Seq<char>>;

/// What `std::path::Path::parent` gives for a path, as text.
pub uninterp spec fn path_parent(path: Seq<char>) -> Option<Seq<char>>;

/// What `std::path::Path::join` gives for two paths, as text.
pub uninterp spec fn path_join(base: Seq<char>, rel: Seq<char>) -> Seq<char>;

/// `std::path::Path::file_name` of `path`, as a `String`. The contract names the
/// result and adds what the std documentation states: the name is absent exactly
/// when the stem is.
#[verifier::external_body]
fn file_name_of(path: &str) -> (r: Option<String>)
    ensures
        r matches Some(s) ==> path_file_name(path@) == Some(s@),
        r is None ==> path_file_name(path@) is None,
        r is None <==> path_file_stem(path@) is None,
{
    std::path::Path::new(path).file_name().map(|n| n.to_string_lossy().into_owned())
}

/// `std::path::Path::file_stem` of `path`, as a `String`; the contract names the result.
#[verifier::external_body]
fn file_stem_of(path: &str) -> (r: Option<String>)
    ensures
        r matches Some(s) ==> path_file_stem(path@) == Some(s@),
        r is None ==> path_file_stem(path@) is None,
{
    std::path::Path::new(path).file_stem().map(|n| n.to_string_lossy().into_owned())
}

/// `std::path::Path::parent` of `path`, as a `String`; the contract names the result.
#[verifier::external_body]
fn parent_of(path: &str) -> (r: Option<String>)
    ensures
        r matches Some(s) ==> path_parent(path@) == Some(s@),
        r is None ==> path_parent(path@) is None,
{
    std::path::Path::new(path).parent().map(|p| p.to_string_lossy().into_owned())
}

/// `std::path::Path::join` of two paths, as a `String`; the contract names the result.
#[verifier::external_body]
pub(crate) fn join_paths(base: &str, rel: &str) -> (r: String)
    ensures
        r@ == path_join(base@, rel@),
{
    std::path::Path::new(base).join(rel).to_string_lossy().into_owned()
}

// ---------------------------------------------------------------------------
// Text helpers
// ---------------------------------------------------------------------------

/// The part of `s` after its last `c` (all of `s` when `c` does not occur):
/// what `s.rsplit(c).next()` gives.
pub open spec fn after_last(s: Seq<char>, c: char) -> Seq<char>
    decreases s.len(),
{
    if s.len() == 0 {
        s
    } else if s.last() == c {
        Seq::empty()
    } else {
        after_last(s.drop_last(), c).push(s.last())
    }
}

/// Whether `s` ends with `suffix`.
pub open spec fn ends_with(s: Seq<char>, suffix: Seq<char>) -> bool {
    suffix.len() <= s.len() && s.subrange(s.len() - suffix.len(), s.len() as int) == suffix
}

/// The index just after the last `c` in `v` (0 when there is none).
pub(crate) fn start_after_last(v: &[char], c: char) -> (i: usize)
    ensures
        i <= v@.len(),
        v@.subrange(i as int, v@.len() as int) == after_last(v@, c),
{
    let mut i = v.len();
    assert(v@.subrange(0, v@.len() as int) =~= v@);
    assert(v@.subrange(v@.len() as int, v@.len() as int) =~= Seq::<char>::empty());
    assert(after_last(v@, c) =~= after_last(v@, c) + Seq::<char>::empty());
    while i > 0
        invariant
            i <= v@.len(),
            after_last(v@, c) == after_last(v@.subrange(0, i as int), c) + v@.subrange(
                i as int,
                v@.len() as int,
            ),
            forall|k: int| i <= k < v@.len() ==> v@[k] != c,
        decreases i,
    {
        let ghost pre = v@.subrange(0, i as int);
        assert(pre.drop_last() == v@.subrange(0, i - 1));
        if v[i - 1] == c {
            assert(after_last(pre, c) == Seq::<char>::empty());
            assert(v@.subrange(i as int, v@.len() as int) =~= Seq::<char>::empty()
                + v@.subrange(i as int, v@.len() as int));
            return i;
        }
        assert(after_last(pre, c) == after_last(v@.subrange(0, i - 1), c).push(v@[i - 1]));
        assert(v@.subrange(i - 1, v@.len() as int) =~= seq![v@[i - 1]] + v@.subrange(
            i as int,
            v@.len() as int,
        ));
        i -= 1;
    }
    assert(v@.subrange(0, 0) =~= Seq::<char>::empty());
    assert(v@.subrange(0, v@.len() as int) =~= v@);
    0
}

/// Whether the characters of `v` from `from` on equal `lit`.
fn tail_is(v: &[char], from: usize, lit: &str) -> (r: bool)
    requires
        from <= v@.len(),
    ensures
        r == (v@.subrange(from as int, v@.len() as int) == lit@),
{
    let l = chars_of(lit);
    if v.len() - from != l.len() {
        return false;
    }
    let mut j: usize = 0;
    while j < l.len()
        invariant
            from + l@.len() == v@.len(),
            v@.len() <= usize::MAX,
            l@ == lit@,
            j <= l@.len(),
            forall|k: int| 0 <= k < j ==> v@[from + k] == l@[k],
        decreases l@.len() - j,
    {
        if v[from + j] != l[j] {
            assert(v@.subrange(from as int, v@.len() as int)[j as int] != lit@[j as int]);
            return false;
        }
        j += 1;
    }
    assert(v@.subrange(from as int, v@.len() as int) =~= lit@);
    true
}

/// Whether `v` ends with `lit`.
fn ends_with_lit(v: &[char], lit: &str) -> (r: bool)
    ensures
        r == ends_with(v@, lit@),
{
    let n = lit.unicode_len();
    if n > v.len() {
        return false;
    }
    tail_is(v, v.len() - n, lit)
}

// ---------------------------------------------------------------------------
// SourceType
// ---------------------------------------------------------------------------

/// The language of a source file as the parser should see it.
#[derive(Debug, Clone, Copy, PartialEq, Eq, Structural)]
pub struct SourceType {
    /// TypeScript (as opposed to JavaScript).
    pub typescript: bool,
    /// JSX enabled.
    pub jsx: bool,
}

impl SourceType {
    pub fn is_typescript(&self) -> (r: bool)
        ensures
            r == self.typescript,
    {
        self.typescript
    }

    pub fn is_jsx(&self) -> (r: bool)
        ensures
            r == self.jsx,
    {
        self.jsx
    }
}

/// The source type of a file: `.tsx` and `.ts` are TypeScript with JSX (Qwik allows
/// JSX in `.ts`), `.jsx` is JavaScript with JSX, everything else is a plain
/// JavaScript module.
pub open spec fn source_type_of(path: Seq<char>) -> SourceType {
    if ends_with(path, ".tsx"@) || ends_with(path, ".ts"@) {
        SourceType { typescript: true, jsx: true }
    } else if ends_with(path, ".jsx"@) {
        SourceType { typescript: false, jsx: true }
    } else {
        SourceType { typescript: false, jsx: false }
    }
}

/// The output extension for an input extension and the transpilation flags.
pub open spec fn output_extension_of(ext: Seq<char>, transpile_ts: bool, transpile_jsx: bool) -> Seq<
    char,
> {
    if ext == "tsx"@ {
        if transpile_ts && transpile_jsx {
            "js"@
        } else if transpile_ts {
            "jsx"@
        } else if transpile_jsx {
            "ts"@
        } else {
            "tsx"@
        }
    } else if ext == "ts"@ {
        if transpile_ts {
            "js"@
        } else {
            "ts"@
        }
    } else if ext == "jsx"@ {
        if transpile_jsx {
            "js"@
        } else {
            "jsx"@
        }
    } else if ext == "mjs"@ {
        "mjs"@
    } else if ext == "cjs"@ {
        "cjs"@
    } else {
        "js"@
    }
}

// ---------------------------------------------------------------------------
// PathData / SourcePath
// ---------------------------------------------------------------------------

/// Decomposed path data for a single input module.
#[derive(Debug, Clone, PartialEq, Eq)]
pub struct PathData {
    /// Filename without extension (e.g. "index" for "src/routes/index.tsx").
    pub file_stem: String,
    /// Filename with extension (e.g. "index.tsx").
    pub file_name: String,
    /// Directory part of the relative path (e.g. "src/routes"); empty at the root.
    pub rel_dir: String,
    /// `src_dir` joined with `rel_dir`.
    pub abs_dir: String,
}

/// Why a path could not be decomposed.
#[derive(Debug, Clone, PartialEq, Eq)]
pub enum PathError {
    /// The path has no file name (e.g. it is empty or ends in `..`).
    NoFileName(String),
    /// The path has no file stem.
    NoFileStem(String),
}

/// The directory part of a relative path: the parent, or empty when there is none.
pub open spec fn rel_dir_of(path: Seq<char>) -> Seq<char> {
    match path_parent(path) {
        Some(p) => if p.len() == 0 {
            Seq::empty()
        } else {
            p
        },
        None => Seq::empty(),
    }
}

/// A borrowed path to a source file (e.g. `"src/routes/index.tsx"`).
#[derive(Debug, Clone, Copy, PartialEq, Eq)]
pub struct SourcePath<'a>(pub &'a str);

impl<'a> SourcePath<'a> {
    /// Detect the source type from the file extension.
    pub fn source_type(&self) -> (r: SourceType)
        ensures
            r == source_type_of(self.0@),
    {
        let v = chars_of(self.0);
        if ends_with_lit(&v, ".tsx") || ends_with_lit(&v, ".ts") {
            SourceType { typescript: true, jsx: true }
        } else if ends_with_lit(&v, ".jsx") {
            SourceType { typescript: false, jsx: true }
        } else {
            SourceType { typescript: false, jsx: false }
        }
    }

    /// The output extension for this path given the transpilation flags: the text
    /// after the last `.` decides, and unknown extensions give "js".
    pub fn output_extension(&self, transpile_ts: bool, transpile_jsx: bool) -> (r: &'static str)
        ensures
            r@ == output_extension_of(after_last(self.0@, '.'), transpile_ts, transpile_jsx),
    {
        let v = chars_of(self.0);
        let start = start_after_last(&v, '.');
        if tail_is(&v, start, "tsx") {
            if transpile_ts && transpile_jsx {
                "js"
            } else if transpile_ts {
                "jsx"
            } else if transpile_jsx {
                "ts"
            } else {
                "tsx"
            }
        } else if tail_is(&v, start, "ts") {
            if transpile_ts {
                "js"
            } else {
                "ts"
            }
        } else if tail_is(&v, start, "jsx") {
            if transpile_jsx {
                "js"
            } else {
                "jsx"
            }
        } else if tail_is(&v, start, "mjs") {
            "mjs"
        } else if tail_is(&v, start, "cjs") {
            "cjs"
        } else {
            "js"
        }
    }

    /// Decompose this path (relative to `src_dir`) into file stem, file name,
    /// relative directory and absolute directory.
    pub fn path_data(&self, src_dir: &str) -> (r: Result<PathData, PathError>)
        ensures
            match r {
                Ok(d) => {
                    &&& path_file_name(self.0@) == Some(d.file_name@)
                    &&& path_file_stem(self.0@) == Some(d.file_stem@)
                    &&& d.rel_dir@ == rel_dir_of(self.0@)
                    &&& d.abs_dir@ == path_join(src_dir@, rel_dir_of(self.0@))
                },
                Err(PathError::NoFileName(p)) => p@ == self.0@ && path_file_name(self.0@) is None,
                Err(PathError::NoFileStem(p)) => p@ == self.0@ && path_file_stem(self.0@) is None,
            },
            r is Ok <==> path_file_name(self.0@) is Some,
    {
        let file_name = match file_name_of(self.0) {
            Some(n) => n,
            None => {
                return Err(PathError::NoFileName(String::from_str(self.0)));
            },
        };
        let file_stem = match file_stem_of(self.0) {
            Some(s) => s,
            None => {
                return Err(PathError::NoFileStem(String::from_str(self.0)));
            },
        };
        let rel_dir = match parent_of(self.0) {
            Some(p) => {
                if p.as_str().unicode_len() == 0 {
                    String::new()
                } else {
                    p
                }
            },
            None => String::new(),
        };
        let abs_dir = join_paths(src_dir, rel_dir.as_str());
        Ok(PathData { file_stem, file_name, rel_dir, abs_dir })
    }

    /// The inner path string.
    pub fn as_str(&self) -> (r: &'a str)
        ensures
            r@ == self.0@,
    {
        self.0
    }
}

impl<'a> From<&'a str> for SourcePath<'a> {
    fn from(s: &'a str) -> (r: Self) {
        SourcePath(s)
    }
}

impl<'a> vstd::std_specs::convert::FromSpecImpl<&'a str> for SourcePath<'a> {
    open spec fn obeys_from_spec() -> bool {
        true
    }

    open spec fn from_spec(v: &'a str) -> Self {
        SourcePath(v)
    }
}

/// Law: a `.ts` file is emitted as `.js` exactly when TypeScript is
/// transpiled, and as `.ts` otherwise; transpiling JSX changes nothing for it.
pub proof fn lemma_ts_output_extension(path: Seq<char>, transpile_ts: bool, jsx_a: bool, jsx_b: bool)
    requires
        after_last(path, '.') == "ts"@,
    ensures
        output_extension_of(after_last(path, '.'), transpile_ts, jsx_a) == output_extension_of(
            after_last(path, '.'),
            transpile_ts,
            jsx_b,
        ),
        transpile_ts ==> output_extension_of(after_last(path, '.'), transpile_ts, jsx_a) == "js"@,
        !transpile_ts ==> output_extension_of(after_last(path, '.'), transpile_ts, jsx_a) == "ts"@,
{
    reveal_strlit("ts");
    reveal_strlit("tsx");
    assert("ts"@ != "tsx"@) by {
        assert("ts"@.len() != "tsx"@.len());
    }
}

} // verus!
