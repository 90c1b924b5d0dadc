//! The decisions and text assembly around one file's transform: whether the
//! tree shaker runs, the output paths and extensions, the sort keys of output
//! modules, and the output modules built from segment records.

use vstd::prelude::*;

use crate::source_path::{
    after_last, join_paths, output_extension_of, path_join, start_after_last, PathData, SourcePath,
};
use crate::code_move::views;
use crate::text::{chars_of, str_eq, string_of};
use crate::types::{
    CtxKind, EmitMode, EntryStrategy, MinifyMode, SegmentAnalysis, TransformCodeOptions,
    TransformModule,
};
use crate::{opt_string_view, copy_opt_string, copy_string};

verus! {

// ---------------------------------------------------------------------------
// Tree shaker decision
// ---------------------------------------------------------------------------

/// The tree shaker runs for split (non-inline) strategies with minification on,
/// on the client side, outside library mode.
pub open spec fn runs_treeshaker(c: TransformCodeOptions) -> bool {
    &&& !(c.entry_strategy == EntryStrategy::Inline || c.entry_strategy == EntryStrategy::Hoist)
    &&& c.minify != MinifyMode::Disabled
    &&& !c.is_server
    &&& c.mode != EmitMode::Lib
}

/// Whether the side-effect tree shaker runs for a file transformed under `config`.
pub fn run_treeshaker(config: &TransformCodeOptions) -> (r: bool)
    ensures
        r == runs_treeshaker(*config),
{
    let inline = match config.entry_strategy {
        EntryStrategy::Inline | EntryStrategy::Hoist => true,
        _ => false,
    };
    let minify_on = match config.minify {
        MinifyMode::Disabled => false,
        _ => true,
    };
    let lib_mode = match config.mode {
        EmitMode::Lib => true,
        _ => false,
    };
    !inline && minify_on && !config.is_server && !lib_mode
}

// ---------------------------------------------------------------------------
// Paths and extensions
// ---------------------------------------------------------------------------

/// `name` under the directory `dir` with a `/` between them, or `name` alone
/// when `dir` is empty.
pub open spec fn slash_join(dir: Seq<char>, name: Seq<char>) -> Seq<char> {
    if dir.len() == 0 {
        name
    } else {
        dir + seq!['/'] + name
    }
}

fn slash_join_strings(dir: &str, name: &str) -> (r: String)
    ensures
        r@ == slash_join(dir@, name@),
{
    if dir.unicode_len() == 0 {
        String::from_str(name)
    } else {
        let mut r = String::from_str(dir);
        crate::text::push_char(&mut r, '/');
        r.append(name);
        r
    }
}

/// The source file's path relative to the source directory, `/`-separated.
pub fn relative_path(d: &PathData) -> (r: String)
    ensures
        r@ == slash_join(d.rel_dir@, d.file_name@),
{
    slash_join_strings(d.rel_dir.as_str(), d.file_name.as_str())
}

/// The text after the last `.` of a file name (the whole name when it has none).
pub fn file_extension(file_name: &str) -> (r: String)
    ensures
        r@ == after_last(file_name@, '.'),
{
    let v = chars_of(file_name);
    let start = start_after_last(&v, '.');
    string_of(&v, start, v.len())
}

/// The output path of a file's root module: the file keeps its name unless a
/// segment was extracted and file names are not preserved, in which case its
/// extension becomes the output extension; the relative directory is joined in
/// front when there is one.
pub open spec fn output_path_spec(
    d: PathData,
    input_path: Seq<char>,
    did_transform: bool,
    preserve_filenames: bool,
    transpile_ts: bool,
    transpile_jsx: bool,
) -> Seq<char> {
    let name = if did_transform && !preserve_filenames {
        d.file_stem@ + seq!['.'] + output_extension_of(
            after_last(input_path, '.'),
            transpile_ts,
            transpile_jsx,
        )
    } else {
        d.file_name@
    };
    if d.rel_dir@.len() == 0 {
        name
    } else {
        path_join(d.rel_dir@, name)
    }
}

/// The output path of the root module of `input_path`, decomposed as `d`.
pub fn output_path(
    d: &PathData,
    input_path: &str,
    did_transform: bool,
    config: &TransformCodeOptions,
) -> (r: String)
    ensures
        r@ == output_path_spec(
            *d,
            input_path@,
            did_transform,
            config.preserve_filenames,
            config.transpile_ts,
            config.transpile_jsx,
        ),
{
    let name = if did_transform && !config.preserve_filenames {
        let ext = SourcePath(input_path).output_extension(config.transpile_ts, config.transpile_jsx);
        let mut n = String::from_str(d.file_stem.as_str());
        crate::text::push_char(&mut n, '.');
        n.append(ext);
        assert(n@ =~= d.file_stem@ + seq!['.'] + ext@);
        n
    } else {
        String::from_str(d.file_name.as_str())
    };
    if d.rel_dir.as_str().unicode_len() == 0 {
        name
    } else {
        join_paths(d.rel_dir.as_str(), name.as_str())
    }
}

/// The path of a segment module: `{rel_dir}/{canonical_filename}.{extension}`,
/// without the directory part at the root.
pub open spec fn segment_path_spec(rel_dir: Seq<char>, canonical: Seq<char>, extension: Seq<char>) -> Seq<
    char,
> {
    slash_join(rel_dir, canonical + seq!['.'] + extension)
}

/// The output path of a segment module.
pub fn segment_path(rel_dir: &str, canonical_filename: &str, extension: &str) -> (r: String)
    ensures
        r@ == segment_path_spec(rel_dir@, canonical_filename@, extension@),
{
    let mut name = String::from_str(canonical_filename);
    crate::text::push_char(&mut name, '.');
    name.append(extension);
    slash_join_strings(rel_dir, name.as_str())
}

/// The dev path handed to `_useHmr`: the given one, or the file's absolute path.
pub fn effective_dev_path(d: &PathData, dev_path: Option<&str>) -> (r: String)
    ensures
        r@ == (match dev_path {
            Some(p) => p@,
            None => path_join(d.abs_dir@, d.file_name@),
        }),
{
    match dev_path {
        Some(p) => String::from_str(p),
        None => join_paths(d.abs_dir.as_str(), d.file_name.as_str()),
    }
}

// ---------------------------------------------------------------------------
// Segment order keys: the first 8 bytes of the hash read in base 36
// ---------------------------------------------------------------------------

/// The number of bytes of `c` in UTF-8.
pub open spec fn utf8_width(c: char) -> int {
    if (c as u32) < 0x80 {
        1
    } else if (c as u32) < 0x800 {
        2
    } else if (c as u32) < 0x10000 {
        3
    } else {
        4
    }
}

/// Byte offset `n` of `s` (or the end of `s`, when it is shorter) falls between
/// two characters.
pub open spec fn is_char_boundary(s: Seq<char>, n: int) -> bool
    decreases s.len(),
{
    if n <= 0 {
        n == 0
    } else if s.len() == 0 {
        true
    } else {
        is_char_boundary(s.drop_first(), n - utf8_width(s[0]))
    }
}

/// The characters of `s` within its first `n` bytes (all of `s` when shorter).
pub open spec fn take_bytes(s: Seq<char>, n: int) -> Seq<char>
    decreases s.len(),
{
    if n <= 0 || s.len() == 0 {
        Seq::empty()
    } else {
        seq![s[0]] + take_bytes(s.drop_first(), n - utf8_width(s[0]))
    }
}

/// The value of a base-36 digit (`0-9`, then `a-z` or `A-Z`).
pub open spec fn radix36_digit(c: char) -> Option<nat> {
    if '0' <= c && c <= '9' {
        Some((c as u32 - '0' as u32) as nat)
    } else if 'a' <= c && c <= 'z' {
        Some((c as u32 - 'a' as u32 + 10) as nat)
    } else if 'A' <= c && c <= 'Z' {
        Some((c as u32 - 'A' as u32 + 10) as nat)
    } else {
        None
    }
}

/// The value of a string of base-36 digits (`None` when a character is no digit).
pub open spec fn radix36_digits(s: Seq<char>) -> Option<nat>
    decreases s.len(),
{
    if s.len() == 0 {
        Some(0)
    } else {
        match (radix36_digits(s.drop_last()), radix36_digit(s.last())) {
            (Some(v), Some(d)) => Some(v * 36 + d),
            _ => None,
        }
    }
}

/// What `u64::from_str_radix(s, 36)` gives for a string of at most 12
/// characters: an optional `+` followed by at least one digit.
pub open spec fn parse_radix36(s: Seq<char>) -> Option<nat> {
    if s.len() == 0 {
        None
    } else if s[0] == '+' {
        if s.len() == 1 {
            None
        } else {
            radix36_digits(s.drop_first())
        }
    } else {
        radix36_digits(s)
    }
}

/// The sort key of a segment module: the first 8 bytes of its hash read in
/// base 36, or 0 when they are no base-36 number.
pub open spec fn segment_order_spec(hash: Seq<char>) -> nat {
    match parse_radix36(take_bytes(hash, 8)) {
        Some(v) => v,
        None => 0,
    }
}

pub open spec fn pow36(n: nat) -> nat
    decreases n,
{
    if n == 0 {
        1
    } else {
        36 * pow36((n - 1) as nat)
    }
}

proof fn lemma_radix36_digits_bound(s: Seq<char>)
    ensures
        radix36_digits(s) matches Some(v) ==> v < pow36(s.len()),
    decreases s.len(),
{
    if s.len() > 0 {
        lemma_radix36_digits_bound(s.drop_last());
        if let (Some(v), Some(d)) = (radix36_digits(s.drop_last()), radix36_digit(s.last())) {
            let p = pow36((s.len() - 1) as nat);
            assert(v * 36 + d < 36 * p) by (nonlinear_arith)
                requires
                    v < p,
                    d < 36,
            ;
        }
    }
}

proof fn lemma_take_bytes_len(s: Seq<char>, n: int)
    ensures
        n >= 0 ==> take_bytes(s, n).len() <= n,
    decreases s.len(),
{
    if n > 0 && s.len() > 0 {
        let w = utf8_width(s[0]);
        lemma_take_bytes_len(s.drop_first(), n - w);
        assert(take_bytes(s, n) == seq![s[0]] + take_bytes(s.drop_first(), n - w));
        if n - w < 0 {
            assert(take_bytes(s.drop_first(), n - w).len() == 0);
        }
    }
}

fn char_width(c: char) -> (w: usize)
    ensures
        w == utf8_width(c),
{
    let u = c as u32;
    if u < 0x80 {
        1
    } else if u < 0x800 {
        2
    } else if u < 0x10000 {
        3
    } else {
        4
    }
}

fn digit36(c: char) -> (r: Option<u64>)
    ensures
        match radix36_digit(c) {
            Some(d) => r == Some(d as u64),
            None => r is None,
        },
{
    if '0' <= c && c <= '9' {
        Some((c as u32 - '0' as u32) as u64)
    } else if 'a' <= c && c <= 'z' {
        Some((c as u32 - 'a' as u32 + 10) as u64)
    } else if 'A' <= c && c <= 'Z' {
        Some((c as u32 - 'A' as u32 + 10) as u64)
    } else {
        None
    }
}

/// The base-36 value of `v[from..to]`, which holds at most 8 characters.
fn radix36_value(v: &[char], from: usize, to: usize) -> (r: Option<u64>)
    requires
        from <= to <= v@.len(),
        to - from <= 8,
    ensures
        match (radix36_digits(v@.subrange(from as int, to as int)), r) {
            (Some(x), Some(y)) => x == y,
            (None, None) => true,
            _ => false,
        },
{
    let mut acc: u64 = 0;
    let mut i = from;
    assert(v@.subrange(from as int, from as int) =~= Seq::<char>::empty());
    while i < to
        invariant
            from <= i <= to <= v@.len(),
            to - from <= 8,
            radix36_digits(v@.subrange(from as int, i as int)) == Some(acc as nat),
            acc < pow36((i - from) as nat),
        decreases to - i,
    {
        let ghost pre = v@.subrange(from as int, i + 1);
        assert(pre.drop_last() =~= v@.subrange(from as int, i as int));
        assert(pre.last() == v@[i as int]);
        match digit36(v[i]) {
            Some(d) => {
                proof {
                    lemma_radix36_digits_bound(pre);
                    reveal_with_fuel(pow36, 9);
                    assert(pow36(8) == 2821109907456);
                    lemma_pow36_mono((i + 1 - from) as nat, 8);
                }
                acc = acc * 36 + d;
                i += 1;
            },
            None => {
                proof {
                    lemma_radix36_none_extends(v@.subrange(from as int, to as int), (i - from) as int);
                    assert(v@.subrange(from as int, to as int).take(i + 1 - from) =~= pre);
                }
                return None;
            },
        }
    }
    Some(acc)
}

proof fn lemma_pow36_mono(a: nat, b: nat)
    requires
        a <= b,
    ensures
        pow36(a) <= pow36(b),
    decreases b,
{
    if a < b {
        lemma_pow36_mono(a, (b - 1) as nat);
    }
}

/// A non-digit stops the whole number: once a prefix has no value, no longer
/// prefix has one.
proof fn lemma_radix36_none_extends(s: Seq<char>, k: int)
    requires
        0 <= k < s.len(),
        radix36_digit(s[k]) is None,
    ensures
        radix36_digits(s) is None,
    decreases s.len(),
{
    if k < s.len() - 1 {
        lemma_radix36_none_extends(s.drop_last(), k);
    }
}

/// Whether byte offset `n` of `s` falls between two characters (or past its end).
pub fn char_boundary_at(s: &str, n: usize) -> (r: bool)
    requires
        n < 0x1000,
    ensures
        r == is_char_boundary(s@, n as int),
{
    let v = chars_of(s);
    let mut i: usize = 0;
    let mut bytes: usize = 0;
    assert(v@.skip(0) =~= v@);
    while i < v.len() && bytes < n
        invariant
            i <= v@.len(),
            bytes < n + 4,
            n < 0x1000,
            v@ == s@,
            is_char_boundary(v@, n as int) == is_char_boundary(v@.skip(i as int), n - bytes),
        decreases v@.len() - i,
    {
        let ghost rest = v@.skip(i as int);
        assert(rest.drop_first() =~= v@.skip(i + 1));
        assert(rest[0] == v@[i as int]);
        let w = char_width(v[i]);
        assert(w <= 4);
        bytes = bytes + w;
        i += 1;
    }
    if bytes >= n {
        bytes == n
    } else {
        assert(v@.skip(i as int) =~= Seq::<char>::empty());
        true
    }
}

/// The sort key of a segment module built from `hash`: `u64::from_str_radix`
/// of the first 8 bytes of the hash in base 36, or 0 when that fails.
pub fn segment_order(hash: &str) -> (r: u64)
    requires
        is_char_boundary(hash@, 8),
    ensures
        r == segment_order_spec(hash@),
{
    let v = chars_of(hash);
    let mut i: usize = 0;
    let mut bytes: usize = 0;
    assert(v@.skip(0) =~= v@);
    assert(v@.take(0) + take_bytes(v@, 8) =~= take_bytes(v@, 8));
    while i < v.len() && bytes < 8
        invariant
            i <= v@.len(),
            bytes <= 8 + 3,
            take_bytes(v@, 8) == v@.take(i as int) + take_bytes(v@.skip(i as int), 8 - bytes),
            is_char_boundary(v@, 8) == is_char_boundary(v@.skip(i as int), 8 - bytes),
            is_char_boundary(v@, 8),
            i <= bytes,
        decreases v@.len() - i,
    {
        let ghost rest = v@.skip(i as int);
        assert(rest.drop_first() =~= v@.skip(i + 1));
        assert(rest[0] == v@[i as int]);
        assert(v@.take(i + 1) =~= v@.take(i as int) + seq![v@[i as int]]);
        bytes = bytes + char_width(v[i]);
        i += 1;
    }
    proof {
        if i == v@.len() {
            assert(v@.skip(i as int) =~= Seq::<char>::empty());
        } else {
            assert(bytes == 8);
        }
        assert(take_bytes(v@, 8) =~= v@.take(i as int));
        lemma_take_bytes_len(v@, 8);
    }
    assert(v@.take(i as int) == v@.subrange(0, i as int));
    let parsed = if i == 0 {
        None
    } else if v[0] == '+' {
        if i == 1 {
            None
        } else {
            assert(v@.take(i as int).drop_first() =~= v@.subrange(1, i as int));
            radix36_value(&v, 1, i)
        }
    } else {
        radix36_value(&v, 0, i)
    };
    proof {
        assert(hash@ == v@);
        assert(take_bytes(hash@, 8) == v@.subrange(0, i as int));
    }
    match parsed {
        Some(x) => x,
        None => 0,
    }
}

// ---------------------------------------------------------------------------
// Output modules
// ---------------------------------------------------------------------------

/// A segment extracted by the transform, as recorded before its module is emitted.
#[derive(Debug)]
pub struct SegmentRecord {
    /// Symbol name (e.g. `test_tsx_component_ABC`).
    pub name: String,
    /// File-prefixed display name (e.g. `test.tsx_component_ABC`).
    pub display_name: String,
    /// Canonical filename of the segment module.
    pub canonical_filename: String,
    /// Output chunk key from the entry policy, or `None` for a chunk of its own.
    pub entry: Option<String>,
    /// The code of the extracted closure; `None` for a stripped (noop) segment.
    pub expr: Option<String>,
    /// Captured identifiers of the enclosing scope.
    pub scoped_idents: Vec<String>,
    /// Import names referenced inside the segment body.
    pub local_idents: Vec<String>,
    /// The marker function name, e.g. `"component$"`.
    pub ctx_name: String,
    /// The context kind.
    pub ctx_kind: CtxKind,
    /// Relative path of the source file.
    pub origin: String,
    /// Byte span `(start, end)` of the call expression in the source.
    pub span: (u32, u32),
    /// The segment hash.
    pub hash: String,
    /// Whether the segment stays inline in its parent module.
    pub is_inline: bool,
    /// Root-level declarations migrated into this segment module.
    pub migrated_root_vars: Vec<String>,
    /// Parent segment name, if nested.
    pub parent: Option<String>,
    /// Span start of the parent segment's call expression.
    pub pending_parent_span: Option<u32>,
    /// Ordered parameter names of the closure.
    pub param_names: Option<Vec<String>>,
}

/// The texts of an optional list of strings.
pub open spec fn opt_views(o: Option<Vec<String>>) -> Option<Seq<Seq<char>>> {
    match o {
        Some(v) => Some(views(v@)),
        None => None,
    }
}

fn copy_strings(v: &Vec<String>) -> (r: Vec<String>)
    ensures
        views(r@) == views(v@),
{
    let mut r: Vec<String> = Vec::new();
    let mut i: usize = 0;
    while i < v.len()
        invariant
            i <= v@.len(),
            r@.len() == i,
            views(r@) == views(v@).take(i as int),
        decreases v@.len() - i,
    {
        let s = copy_string(&v[i]);
        let ghost before = r@;
        r.push(s);
        assert(r@ == before.push(s));
        assert forall|k: int| 0 <= k < r@.len() implies #[trigger] views(r@)[k] == views(v@).take(
            i + 1,
        )[k] by {
            if k < i {
                assert(r@[k] == before[k]);
                assert(views(before)[k] == views(v@).take(i as int)[k]);
            }
        }
        assert(views(r@) =~= views(v@).take(i + 1));
        i += 1;
    }
    assert(views(v@).take(v@.len() as int) =~= views(v@));
    r
}

fn copy_opt_strings(o: &Option<Vec<String>>) -> (r: Option<Vec<String>>)
    ensures
        opt_views(r) == opt_views(*o),
{
    match o {
        Some(v) => Some(copy_strings(v)),
        None => None,
    }
}

/// `a` describes the segment `rec` emitted under `rel_dir` with `extension`:
/// the record's names carried over, captures only for a segment with code, and
/// the span shifted to 1-based offsets.
pub open spec fn analysis_of(
    rec: SegmentRecord,
    rel_dir: Seq<char>,
    extension: Seq<char>,
    a: SegmentAnalysis,
) -> bool {
    let captures = rec.expr is Some && rec.scoped_idents@.len() > 0;
    &&& a.origin@ == rec.origin@
    &&& a.name@ == rec.name@
    &&& opt_string_view(a.entry) == opt_string_view(rec.entry)
    &&& a.display_name@ == rec.display_name@
    &&& a.hash@ == rec.hash@
    &&& a.canonical_filename@ == rec.canonical_filename@
    &&& a.path@ == rel_dir
    &&& a.extension@ == extension
    &&& opt_string_view(a.parent) == opt_string_view(rec.parent)
    &&& a.ctx_kind == rec.ctx_kind
    &&& a.ctx_name@ == rec.ctx_name@
    &&& a.captures == captures
    &&& opt_views(a.capture_names) == (if captures {
        Some(views(rec.scoped_idents@))
    } else {
        None
    })
    &&& a.loc == (add1(rec.span.0), add1(rec.span.1))
    &&& opt_views(a.param_names) == opt_views(rec.param_names)
}

/// One more than a span offset.
pub open spec fn add1(x: u32) -> u32 {
    (x + 1) as u32
}

/// The metadata of the segment module of `rec`.
pub fn segment_analysis_of(rec: &SegmentRecord, rel_dir: &str, extension: &str) -> (a:
    SegmentAnalysis)
    requires
        rec.span.0 < u32::MAX,
        rec.span.1 < u32::MAX,
    ensures
        analysis_of(*rec, rel_dir@, extension@, a),
{
    let captures = rec.expr.is_some() && rec.scoped_idents.len() > 0;
    let capture_names = if captures {
        Some(copy_strings(&rec.scoped_idents))
    } else {
        None
    };
    SegmentAnalysis {
        origin: copy_string(&rec.origin),
        name: copy_string(&rec.name),
        entry: copy_opt_string(&rec.entry),
        display_name: copy_string(&rec.display_name),
        hash: copy_string(&rec.hash),
        canonical_filename: copy_string(&rec.canonical_filename),
        path: String::from_str(rel_dir),
        extension: String::from_str(extension),
        parent: copy_opt_string(&rec.parent),
        ctx_kind: rec.ctx_kind,
        ctx_name: copy_string(&rec.ctx_name),
        captures,
        capture_names,
        loc: (rec.span.0 + 1, rec.span.1 + 1),
        param_names: copy_opt_strings(&rec.param_names),
    }
}

/// The output module of the segment `rec`, holding the emitted `code` and `map`:
/// its path under `rel_dir`, entry flag (a segment with no named entry is an
/// entry of its own), metadata and base-36 sort key.
pub fn segment_module_of(
    rec: &SegmentRecord,
    rel_dir: &str,
    extension: &str,
    code: String,
    map: Option<String>,
) -> (m: TransformModule)
    requires
        rec.span.0 < u32::MAX,
        rec.span.1 < u32::MAX,
        is_char_boundary(rec.hash@, 8),
    ensures
        m.path@ == segment_path_spec(rel_dir@, rec.canonical_filename@, extension@),
        m.is_entry == rec.entry is None,
        m.code@ == code@,
        opt_string_view(m.map) == opt_string_view(map),
        m.segment matches Some(a) && analysis_of(*rec, rel_dir@, extension@, a),
        m.orig_path is None,
        m.order == segment_order_spec(rec.hash@),
{
    let path = segment_path(rel_dir, rec.canonical_filename.as_str(), extension);
    let analysis = segment_analysis_of(rec, rel_dir, extension);
    let order = segment_order(rec.hash.as_str());
    TransformModule {
        path,
        is_entry: rec.entry.is_none(),
        code,
        map,
        segment: Some(analysis),
        orig_path: None,
        order,
    }
}

/// What std's `DefaultHasher` gives for the `str` with these characters. Every
/// `DefaultHasher::new()` starts from the same state (std's documentation of
/// `new`), so the result depends on the text alone; std leaves the algorithm
/// unspecified and free to change between releases, so nothing more is said
/// of it.
pub uninterp spec fn default_hash_of(s: Seq<char>) -> u64;

/// The sort key of a root module: a fresh `DefaultHasher` (std's
/// `DefaultHasher::new`, `Hash for str`, `Hasher::finish`) over its path.
/// Claimed: the result is `default_hash_of` the path's characters.
#[verifier::external_body]
fn path_hash(path: &str) -> (r: u64)
    ensures
        r == default_hash_of(path@),
{
    let mut hasher = std::collections::hash_map::DefaultHasher::new();
    std::hash::Hash::hash(path, &mut hasher);
    std::hash::Hasher::finish(&hasher)
}

/// The root module of the file `input_path` (decomposed as `d`), holding the
/// emitted `code` and `map`.
pub fn root_module_of(
    d: &PathData,
    input_path: &str,
    did_transform: bool,
    config: &TransformCodeOptions,
    code: String,
    map: Option<String>,
) -> (m: TransformModule)
    ensures
        m.path@ == output_path_spec(
            *d,
            input_path@,
            did_transform,
            config.preserve_filenames,
            config.transpile_ts,
            config.transpile_jsx,
        ),
        !m.is_entry,
        m.code@ == code@,
        opt_string_view(m.map) == opt_string_view(map),
        m.segment is None,
        opt_string_view(m.orig_path) == Some(input_path@),
        m.order == default_hash_of(m.path@),
{
    let path = output_path(d, input_path, did_transform, config);
    let order = path_hash(path.as_str());
    TransformModule {
        path,
        is_entry: false,
        code,
        map,
        segment: None,
        orig_path: Some(String::from_str(input_path)),
        order,
    }
}

/// Whether a segment gets `_useHmr` injected: `component$` bodies in HMR mode.
pub fn is_component_hmr(mode: EmitMode, ctx_name: &str) -> (r: bool)
    ensures
        r == (mode == EmitMode::Hmr && ctx_name@ == "component$"@),
{
    let hmr = match mode {
        EmitMode::Hmr => true,
        _ => false,
    };
    hmr && str_eq(ctx_name, "component$")
}

/// The import names of a segment, with `_useHmr` added when absent.
pub fn with_use_hmr(local_idents: &Vec<String>) -> (r: Vec<String>)
    ensures
        views(r@) == (if views(local_idents@).contains("_useHmr"@) {
            views(local_idents@)
        } else {
            views(local_idents@).push("_useHmr"@)
        }),
{
    let mut r = copy_strings(local_idents);
    let mut found = false;
    let mut i: usize = 0;
    while i < local_idents.len()
        invariant
            i <= local_idents@.len(),
            found == exists|k: int| 0 <= k < i && #[trigger] views(local_idents@)[k] == "_useHmr"@,
        decreases local_idents@.len() - i,
    {
        assert(views(local_idents@)[i as int] == local_idents@[i as int]@);
        if str_eq(local_idents[i].as_str(), "_useHmr") {
            found = true;
        }
        i += 1;
    }
    assert(found == views(local_idents@).contains("_useHmr"@));
    if !found {
        let ghost before = r@;
        r.push(String::from_str("_useHmr"));
        assert(views(r@) =~= views(before).push("_useHmr"@));
    }
    r
}

} // verus!
