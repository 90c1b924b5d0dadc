//! The decisions of the `$`-call extraction, as steps over plain values: the
//! syntax-tree walk hands each marker call over as a `MarkerCall`, the step
//! updates the extraction state (segment names, segment records, hoisted
//! constants, registrations, diagnostics, needed helpers) and says how the
//! call is to be rewritten; at the end of the program, the state gives the
//! root module's added imports and declarations.

use vstd::prelude::*;

use crate::captures::{capturable_decl, compute_scoped_idents, IdentType};
use crate::code_move::views;
use crate::collector::{key_pos, CollectView, GlobalCollect};
use crate::dependency_analysis::has_key;
use crate::entry_strategy::{parse_entry_strategy, policy_of};
use crate::hash::{
    base_name_of, canonical_filename_of, count_of, display_core, opt_view, register_context_name,
    segment_hash_with_override, symbol_name_of, ContextNameResult, SegmentNames,
};
use crate::inlined_fn::join_comma;
use crate::item_order::HoistedConst;
use crate::module_output::SegmentRecord;
use crate::segment_module::{append_all_new, append_new, extend_strings};
use crate::segment_rules::{
    comma_join, emits_segment, inline_mode, is_inline_mode, push_when, qrl_ref, qrl_ref_text, qrl_site, qrl_site_spec,
    root_hoisted_spec,
    root_hoisted_statements, root_import_statements, root_imports_are, should_emit_segment, ImportNeeds,
    QrlSite,
};
use crate::text::{concat2, concat3, contains_str, distinct_strings, sorted_lex, str_eq};
use crate::types::{CtxKind, Diagnostic, DiagnosticCategory, EmitMode, EntryStrategy, SegmentData};

verus! {

// ---------------------------------------------------------------------------
// Classifying the names a segment uses
// ---------------------------------------------------------------------------

/// A name the parent module declares or exports (imported by the segment
/// from the parent).
pub open spec fn parent_name(g: CollectView, x: Seq<char>) -> bool {
    key_pos(g.root, x) is Some || g.exports.contains(x)
}

/// An import the segment needs: local name, imported name, source.
pub type NeededView = (Seq<char>, Seq<char>, Seq<char>);

/// The import bound to `x` in the parent, as a needed import.
pub open spec fn needed_of(g: CollectView, x: Seq<char>) -> NeededView {
    let p = key_pos(g.imports, x)->0;
    (x, g.imports[p].1.1, g.imports[p].1.0)
}

/// The first pass over the captured names: names of the parent become
/// self-imports, imported names become needed imports, the rest stay
/// captured. Gives (captured, self-imports, needed imports).
pub open spec fn classify_scoped(g: CollectView, scoped: Seq<Seq<char>>) -> (
    Seq<Seq<char>>,
    Seq<Seq<char>>,
    Seq<NeededView>,
)
    decreases scoped.len(),
{
    if scoped.len() == 0 {
        (Seq::empty(), Seq::empty(), Seq::empty())
    } else {
        let (k, s, n) = classify_scoped(g, scoped.drop_last());
        let x = scoped.last();
        if parent_name(g, x) {
            (k, s.push(x), n)
        } else if key_pos(g.imports, x) is Some {
            (k, s, n.push(needed_of(g, x)))
        } else {
            (k.push(x), s, n)
        }
    }
}

/// The local names of needed imports.
pub open spec fn needed_locals(n: Seq<NeededView>) -> Seq<Seq<char>> {
    n.map_values(|e: NeededView| e.0)
}

/// The second pass over every name the segment uses: imported names not yet
/// needed become needed, names of the parent not yet self-imported (nor
/// captured) become self-imports. Gives (self-imports, needed imports).
pub open spec fn classify_used(
    g: CollectView,
    used: Seq<Seq<char>>,
    kept: Seq<Seq<char>>,
    s: Seq<Seq<char>>,
    n: Seq<NeededView>,
) -> (Seq<Seq<char>>, Seq<NeededView>)
    decreases used.len(),
{
    if used.len() == 0 {
        (s, n)
    } else {
        let (s1, n1) = classify_used(g, used.drop_last(), kept, s, n);
        let x = used.last();
        let n2 = if key_pos(g.imports, x) is Some && !needed_locals(n1).contains(x) {
            n1.push(needed_of(g, x))
        } else {
            n1
        };
        let s2 = if parent_name(g, x) && !s1.contains(x) && !kept.contains(x) {
            s1.push(x)
        } else {
            s1
        };
        (s2, n2)
    }
}

/// How often a function or class declaration named `x` stands in `decls`.
pub open spec fn fn_decls_named(decls: Seq<(String, IdentType)>, x: Seq<char>) -> nat
    decreases decls.len(),
{
    if decls.len() == 0 {
        0
    } else {
        fn_decls_named(decls.drop_last(), x) + if decls.last().0@ == x && (decls.last().1
            == IdentType::Fn || decls.last().1 == IdentType::Class) {
            1nat
        } else {
            0nat
        }
    }
}

/// The names reported as functions referenced across the `$` boundary: for
/// each used name that is not the parent's nor self-imported, once per
/// function or class declaration of that name in scope.
pub open spec fn fn_references(
    g: CollectView,
    used: Seq<Seq<char>>,
    decls: Seq<(String, IdentType)>,
    s: Seq<Seq<char>>,
) -> Seq<Seq<char>>
    decreases used.len(),
{
    if used.len() == 0 {
        Seq::empty()
    } else {
        let x = used.last();
        fn_references(g, used.drop_last(), decls, s) + if !parent_name(g, x) && !s.contains(x) {
            Seq::new(fn_decls_named(decls, x), |i: int| x)
        } else {
            Seq::empty()
        }
    }
}

/// The classification of a segment's names (see `classify_scoped`,
/// `classify_used`, `fn_references`).
pub struct Classified {
    pub scoped: Vec<String>,
    pub self_imports: Vec<String>,
    pub needed: Vec<(String, String, String)>,
    pub fn_references: Vec<String>,
}

/// The views of needed imports.
pub open spec fn needed_views(n: Seq<(String, String, String)>) -> Seq<NeededView> {
    n.map_values(|e: (String, String, String)| (e.0@, e.1@, e.2@))
}

/// `c` classifies the captured names `scoped` and the used names `used`.
pub open spec fn classified(
    g: CollectView,
    scoped: Seq<Seq<char>>,
    used: Seq<Seq<char>>,
    decls: Seq<(String, IdentType)>,
    c: Classified,
) -> bool {
    let (k, s, n) = classify_scoped(g, scoped);
    let (s2, n2) = classify_used(g, used, k, s, n);
    &&& views(c.scoped@) == k
    &&& views(c.self_imports@) == s2
    &&& needed_views(c.needed@) == n2
    &&& views(c.fn_references@) == fn_references(g, used, decls, s2)
}

fn is_parent_name(global: &GlobalCollect, x: &str) -> (r: bool)
    ensures
        r == parent_name(global.view_of(), x@),
{
    global.is_declared_at_root(x) || global.has_export_symbol(x)
}

fn needed_import(global: &GlobalCollect, x: &str) -> (r: Option<(String, String, String)>)
    ensures
        match r {
            Some(e) => key_pos(global.view_of().imports, x@) is Some && (e.0@, e.1@, e.2@)
                == needed_of(global.view_of(), x@),
            None => key_pos(global.view_of().imports, x@) is None,
        },
{
    match global.get_import(x) {
        Some(i) => Some((String::from_str(x), crate::copy_string(&i.specifier), crate::copy_string(&i.source))),
        None => None,
    }
}

fn has_needed_local(n: &Vec<(String, String, String)>, x: &str) -> (r: bool)
    ensures
        r == needed_locals(needed_views(n@)).contains(x@),
{
    let ghost nl = needed_locals(needed_views(n@));
    let mut i: usize = 0;
    while i < n.len()
        invariant
            i <= n@.len(),
            nl == needed_locals(needed_views(n@)),
            forall|j: int| 0 <= j < i ==> nl[j] != x@,
        decreases n@.len() - i,
    {
        if str_eq(n[i].0.as_str(), x) {
            assert(nl[i as int] == x@);
            return true;
        }
        i += 1;
    }
    false
}

fn count_fn_decls(decls: &Vec<(String, IdentType)>, x: &str) -> (r: usize)
    ensures
        r == fn_decls_named(decls@, x@),
{
    let mut c: usize = 0;
    let mut i: usize = 0;
    while i < decls.len()
        invariant
            i <= decls@.len(),
            c == fn_decls_named(decls@.take(i as int), x@),
            c <= i,
        decreases decls@.len() - i,
    {
        assert(decls@.take(i + 1).drop_last() =~= decls@.take(i as int));
        let is_fn = match decls[i].1 {
            IdentType::Fn | IdentType::Class => true,
            _ => false,
        };
        if is_fn && str_eq(decls[i].0.as_str(), x) {
            c += 1;
        }
        i += 1;
    }
    assert(decls@.take(decls@.len() as int) =~= decls@);
    c
}

/// Classify the names a segment uses against the parent module's index (see
/// `classified`).
pub fn classify_captures(
    global: &GlobalCollect,
    scoped: &Vec<String>,
    used: &Vec<String>,
    decls: &Vec<(String, IdentType)>,
) -> (c: Classified)
    ensures
        classified(global.view_of(), views(scoped@), views(used@), decls@, c),
{
    let ghost g = global.view_of();
    let ghost sv = views(scoped@);
    let ghost uv = views(used@);
    let mut kept: Vec<String> = Vec::new();
    let mut selfs: Vec<String> = Vec::new();
    let mut needed: Vec<(String, String, String)> = Vec::new();
    let mut i: usize = 0;
    assert(sv.take(0) =~= Seq::<Seq<char>>::empty());
    assert(views(kept@) =~= Seq::<Seq<char>>::empty());
    assert(needed_views(needed@) =~= Seq::<NeededView>::empty());
    while i < scoped.len()
        invariant
            i <= sv.len(),
            sv == views(scoped@),
            g == global.view_of(),
            classify_scoped(g, sv.take(i as int)) == (views(kept@), views(selfs@), needed_views(needed@)),
        decreases sv.len() - i,
    {
        assert(sv.take(i + 1).drop_last() =~= sv.take(i as int));
        assert(sv.take(i + 1).last() == scoped@[i as int]@);
        let x = scoped[i].as_str();
        if is_parent_name(global, x) {
            let ghost prev = views(selfs@);
            selfs.push(crate::copy_string(&scoped[i]));
            assert(views(selfs@) =~= prev.push(x@));
        } else {
            match needed_import(global, x) {
                Some(e) => {
                    let ghost prev = needed_views(needed@);
                    let ghost ev = (e.0@, e.1@, e.2@);
                    needed.push(e);
                    assert(needed_views(needed@) =~= prev.push(ev));
                },
                None => {
                    let ghost prev = views(kept@);
                    kept.push(crate::copy_string(&scoped[i]));
                    assert(views(kept@) =~= prev.push(x@));
                },
            }
        }
        i += 1;
    }
    assert(sv.take(sv.len() as int) =~= sv);
    let ghost k = views(kept@);
    let ghost s0 = views(selfs@);
    let ghost n0 = needed_views(needed@);
    let mut j: usize = 0;
    assert(uv.take(0) =~= Seq::<Seq<char>>::empty());
    while j < used.len()
        invariant
            j <= uv.len(),
            uv == views(used@),
            g == global.view_of(),
            k == views(kept@),
            classify_used(g, uv.take(j as int), k, s0, n0) == (views(selfs@), needed_views(needed@)),
        decreases uv.len() - j,
    {
        assert(uv.take(j + 1).drop_last() =~= uv.take(j as int));
        assert(uv.take(j + 1).last() == used@[j as int]@);
        let x = used[j].as_str();
        if !has_needed_local(&needed, x) {
            match needed_import(global, x) {
                Some(e) => {
                    let ghost prev = needed_views(needed@);
                    let ghost ev = (e.0@, e.1@, e.2@);
                    needed.push(e);
                    assert(needed_views(needed@) =~= prev.push(ev));
                },
                None => {},
            }
        }
        if is_parent_name(global, x) && !contains_str(&selfs, x) && !contains_str(&kept, x) {
            let ghost prev = views(selfs@);
            selfs.push(crate::copy_string(&used[j]));
            assert(views(selfs@) =~= prev.push(x@));
        }
        j += 1;
    }
    assert(uv.take(uv.len() as int) =~= uv);
    let ghost s2 = views(selfs@);
    let mut refs: Vec<String> = Vec::new();
    let mut m: usize = 0;
    assert(views(refs@) =~= Seq::<Seq<char>>::empty());
    while m < used.len()
        invariant
            m <= uv.len(),
            uv == views(used@),
            g == global.view_of(),
            s2 == views(selfs@),
            views(refs@) == fn_references(g, uv.take(m as int), decls@, s2),
        decreases uv.len() - m,
    {
        assert(uv.take(m + 1).drop_last() =~= uv.take(m as int));
        assert(uv.take(m + 1).last() == used@[m as int]@);
        let x = used[m].as_str();
        if !is_parent_name(global, x) && !contains_str(&selfs, x) {
            let n = count_fn_decls(decls, x);
            let ghost base = views(refs@);
            let mut t: usize = 0;
            while t < n
                invariant
                    t <= n,
                    views(refs@) == base + Seq::new(t as nat, |q: int| x@),
                decreases n - t,
            {
                let ghost prev = views(refs@);
                refs.push(String::from_str(x));
                assert(views(refs@) =~= prev.push(x@));
                assert(Seq::new((t + 1) as nat, |q: int| x@) =~= Seq::new(t as nat, |q: int| x@).push(x@));
                assert(views(refs@) =~= base + Seq::new((t + 1) as nat, |q: int| x@));
                t += 1;
            }
        } else {
            assert(views(refs@) =~= views(refs@) + Seq::<Seq<char>>::empty());
        }
        m += 1;
    }
    assert(uv.take(uv.len() as int) =~= uv);
    Classified { scoped: kept, self_imports: selfs, needed, fn_references: refs }
}

// ---------------------------------------------------------------------------
// The step at a marker call
// ---------------------------------------------------------------------------

/// What the walk knows of the first argument of a marker call.
#[derive(Debug, Clone, Copy, PartialEq, Eq, Structural)]
pub enum FirstArg {
    /// An arrow function or function expression.
    Function,
    /// A plain identifier.
    Identifier,
    /// Anything else.
    Other,
}

/// A `$` marker call, as the syntax-tree walk hands it over when it leaves the
/// call.
pub struct MarkerCall {
    /// The marker's name, e.g. `component$`, `$` or `sync$`.
    pub ctx_name: String,
    /// The context kind of the call.
    pub ctx_kind: CtxKind,
    /// The call is a `sync$` call.
    pub is_sync: bool,
    /// The marker's QRL wrapper, e.g. `componentQrl`.
    pub wrapper_name: String,
    /// The shape of the first argument.
    pub first_arg: FirstArg,
    /// The identifiers referenced inside the first argument, in walk order.
    pub used_idents: Vec<String>,
    /// The parameter names of the first argument when it is a function.
    pub param_idents: Vec<String>,
    /// The sorted parameter names, or `None` when there are none.
    pub param_names: Option<Vec<String>>,
    /// The source text of the first argument.
    pub expr_code: Option<String>,
    /// The span of the call.
    pub span: (u32, u32),
    /// The span start of the enclosing marker call, if any.
    pub parent_span: Option<u32>,
    /// The marker's name was pushed on the naming stack for this call.
    pub pushed_ctx_name: bool,
    /// No marker call encloses this one.
    pub at_root: bool,
    /// The "call" is the value of a `$`-suffixed JSX attribute
    /// (`onClick$={...}`), `ctx_name` being the attribute's name: it needs no
    /// exported QRL form, a non-function value may capture, and the value is
    /// replaced by the QRL itself.
    pub in_jsx_attr: bool,
}

/// The file-wide facts the step reads.
pub struct ExtractContext<'a> {
    /// The naming stack, the marker's name last.
    pub stack_ctxt: &'a [String],
    /// The declarations in scope at the call, outermost first.
    pub decls: &'a Vec<(String, IdentType)>,
    /// The index of the module.
    pub global: &'a GlobalCollect,
    /// Where each imported marker came from.
    pub marker_fn_sources: &'a Vec<(String, String)>,
    pub scope: Option<&'a str>,
    pub rel_path: &'a str,
    pub file_name: &'a str,
    pub mode: EmitMode,
    pub entry_strategy: EntryStrategy,
    pub strip_ctx_name: &'a Vec<String>,
    pub strip_event_handlers: bool,
    pub explicit_extensions: bool,
    pub extension: &'a str,
}

/// The state the extraction builds while it walks a file.
pub struct ExtractState {
    pub segment_names: SegmentNames,
    pub segments: Vec<SegmentRecord>,
    pub extra_top_items: Vec<HoistedConst>,
    pub ref_assignments: Vec<String>,
    pub diagnostics: Vec<Diagnostic>,
    pub needs: ImportNeeds,
    /// The QRL wrappers of the recorded segments' markers (all but `$` and
    /// `sync$`), in order.
    pub wrappers: Vec<String>,
}

/// How the walk rewrites a marker call (or a `$`-suffixed JSX attribute's
/// value).
pub enum CallRewrite {
    /// Leave the call as it is.
    Keep,
    /// Rename the callee.
    Rename(String),
    /// Replace the call (or the value) by `callee("symbol")`.
    Noop { callee: String, symbol: String },
    /// Replace the whole call (or the value) by this code.
    Replace(String),
    /// For a call: rename the callee and add the symbol name, and the captures
    /// array when there are captures, as arguments. For an attribute's value:
    /// replace it by `callee(value, "symbol")`, with the captures array as a
    /// further argument when there are captures.
    Inline { callee: String, symbol: String, captures: Option<Vec<String>> },
}

/// `d` is an optimizer error of code `code` about `file`.
pub open spec fn error_is(d: Diagnostic, code: Seq<char>, file: Seq<char>, message: Seq<char>) -> bool {
    &&& d.scope@ == "optimizer"@
    &&& d.category == DiagnosticCategory::Error
    &&& d.code matches Some(c) && c@ == code
    &&& d.file@ == file
    &&& d.message@ == message
    &&& d.highlights is None
    &&& d.suggestions is None
}

pub open spec fn c05_message(ctx_name: Seq<char>, wrapper: Seq<char>) -> Seq<char> {
    "Found '"@ + ctx_name + "' but did not find the corresponding '"@ + wrapper
        + "' exported in the same file. Please check that it is exported and spelled correctly"@
}

pub open spec fn c02_message(name: Seq<char>) -> Seq<char> {
    "Reference to identifier '"@ + name + "' can not be used inside a Qrl($) scope because it's a function"@
}

pub open spec fn c03_message(scoped: Seq<Seq<char>>) -> Seq<char> {
    "Qrl($) scope is not a function, but it's capturing local identifiers: "@ + join_comma(scoped)
}

/// `s` without the names in `remove`, in order.
pub open spec fn without(s: Seq<Seq<char>>, remove: Seq<Seq<char>>) -> Seq<Seq<char>>
    decreases s.len(),
{
    if s.len() == 0 {
        Seq::empty()
    } else {
        let prev = without(s.drop_last(), remove);
        if remove.contains(s.last()) {
            prev
        } else {
            prev.push(s.last())
        }
    }
}

/// The captures computed from the scope: the used names declared as `const`
/// or `let` in scope, sorted, each once.
pub open spec fn scope_captures(computed: Seq<Seq<char>>, used: Seq<Seq<char>>, decls: Seq<(String, IdentType)>) -> bool {
    &&& sorted_lex(computed)
    &&& distinct_strings(computed)
    &&& forall|m: Seq<char>|
        #[trigger] computed.contains(m) <==> (used.contains(m) && capturable_decl(decls, m))
}

/// `rec` is the record of a segment with these parts (no moved
/// declarations, the parent not resolved yet).
pub open spec fn record_is(
    rec: SegmentRecord,
    call: MarkerCall,
    origin: Seq<char>,
    symbol: Seq<char>,
    display: Seq<char>,
    canonical: Seq<char>,
    hash: Seq<char>,
    entry: Option<Seq<char>>,
    expr: Option<Seq<char>>,
    scoped: Seq<Seq<char>>,
    local: Seq<Seq<char>>,
    is_inline: bool,
) -> bool {
    &&& rec.name@ == symbol
    &&& rec.display_name@ == display
    &&& rec.canonical_filename@ == canonical
    &&& crate::opt_string_view(rec.entry) == entry
    &&& crate::opt_string_view(rec.expr) == expr
    &&& views(rec.scoped_idents@) == scoped
    &&& views(rec.local_idents@) == local
    &&& rec.ctx_name@ == call.ctx_name@
    &&& rec.ctx_kind == call.ctx_kind
    &&& rec.origin@ == origin
    &&& rec.span == call.span
    &&& rec.hash@ == hash
    &&& rec.is_inline == is_inline
    &&& rec.migrated_root_vars@.len() == 0
    &&& rec.parent is None
    &&& rec.pending_parent_span == call.parent_span
    &&& crate::module_output::opt_views(rec.param_names) == crate::module_output::opt_views(call.param_names)
}

/// `new` is `old` with `noop_qrl`, `inlined_qrl` or `qrl` (by `which`: 0, 1,
/// 2) set.
pub open spec fn needs_with(old: ImportNeeds, new: ImportNeeds, which: int) -> bool {
    &&& new.qrl == (old.qrl || which == 2)
    &&& new.inlined_qrl == (old.inlined_qrl || which == 1)
    &&& new.noop_qrl == (old.noop_qrl || which == 0)
    &&& new.jsx_sorted == old.jsx_sorted
    &&& new.jsx_split == old.jsx_split
    &&& new.fragment == old.fragment
    &&& new.fn_signal == old.fn_signal
    &&& new.wrap_prop == old.wrap_prop
}

/// `new` holds `old`'s constants, with `q_{symbol}` added as `site` says.
pub open spec fn hoisted_added(old: Seq<HoistedConst>, new: Seq<HoistedConst>, site: QrlSite, symbol: Seq<char>, is_root_level: bool) -> bool {
    match site.hoisted {
        None => new == old,
        Some(h) => {
            &&& new.len() == old.len() + 1
            &&& new.take(old.len() as int) == old
            &&& new.last().name@ == h.0@
            &&& new.last().rhs_code@ == h.1@
            &&& new.last().symbol_name@ == symbol
            &&& new.last().is_root_level == is_root_level
        },
    }
}

/// The naming stack the entry policy reads: without the marker's name when
/// it was pushed for the call.
pub open spec fn entry_context(stack: Seq<String>, pushed: bool) -> Seq<String> {
    if pushed && stack.len() > 0 {
        stack.drop_last()
    } else {
        stack
    }
}

/// The helper a stripped call is replaced by.
pub open spec fn noop_callee(mode: EmitMode) -> Seq<char> {
    if mode == EmitMode::Dev || mode == EmitMode::Hmr {
        "_noopQrlDEV"@
    } else {
        "_noopQrl"@
    }
}

/// The helper that makes an inlined QRL.
pub open spec fn inlined_helper(mode: EmitMode) -> Seq<char> {
    if mode == EmitMode::Dev || mode == EmitMode::Hmr {
        "inlinedQrlDEV"@
    } else {
        "inlinedQrl"@
    }
}

/// The registration call, as a list.
pub open spec fn registration_list(site: QrlSite) -> Seq<Seq<char>> {
    match site.registration {
        Some(r) => seq![r@],
        None => Seq::empty(),
    }
}

/// A segment named `symbol` is among the hoisted constants.
pub open spec fn symbol_hoisted_in(items: Seq<HoistedConst>, symbol: Seq<char>) -> bool {
    exists|i: int| 0 <= i < items.len() && #[trigger] items[i].symbol_name@ == symbol
}

/// The step for a segment that is emitted, with `site` the call site that
/// `qrl_site_spec` gives: the record, then by the entry strategy either the
/// call inlined with its captures, or the call replaced and the hoisted
/// constant and registration added.
pub open spec fn site_step_holds(
    ctx: ExtractContext,
    call: MarkerCall,
    old: ExtractState,
    new: ExtractState,
    action: CallRewrite,
    rec: SegmentRecord,
    symbol: Seq<char>,
    display: Seq<char>,
    canonical: Seq<char>,
    hash: Seq<char>,
    entry: Option<Seq<char>>,
    scoped: Seq<Seq<char>>,
    local: Seq<Seq<char>>,
    site: QrlSite,
) -> bool {
    let expr = crate::opt_string_view(call.expr_code);
    let hoist = ctx.entry_strategy == EntryStrategy::Hoist && ctx.mode != EmitMode::Lib;
    let inl = !hoist && inline_mode(ctx.entry_strategy, ctx.mode);
    let fn_body = if call.first_arg == FirstArg::Function || call.in_jsx_attr { expr } else { None };
    &&& qrl_site_spec(
        ctx.entry_strategy,
        ctx.mode,
        ctx.explicit_extensions,
        ctx.extension@,
        symbol,
        canonical,
        call.ctx_name@,
        call.wrapper_name@,
        scoped,
        fn_body,
        symbol_hoisted_in(old.extra_top_items@, symbol),
        site,
    )
    &&& record_is(rec, call, ctx.rel_path@, symbol, display, canonical, hash, entry, expr, scoped, local, hoist || inl)
    &&& if inl {
        &&& new.extra_top_items@ == old.extra_top_items@
        &&& new.ref_assignments@ == old.ref_assignments@
        &&& needs_with(old.needs, new.needs, 1)
        &&& action matches CallRewrite::Inline { callee, symbol: sy, captures } && callee@ == (if call.in_jsx_attr {
            inlined_helper(ctx.mode)
        } else {
            call.wrapper_name@
        }) && sy@ == symbol && (if scoped.len() > 0 {
            captures matches Some(c) && views(c@) == scoped
        } else {
            captures is None
        })
    } else {
        &&& hoisted_added(old.extra_top_items@, new.extra_top_items@, site, symbol, call.at_root)
        &&& views(new.ref_assignments@) == views(old.ref_assignments@) + registration_list(site)
        &&& needs_with(old.needs, new.needs, if hoist { 0 } else { 2 })
        &&& action matches CallRewrite::Replace(x) && (if call.in_jsx_attr {
            x@ == qrl_ref(symbol, scoped)
        } else {
            site.replacement matches Some(y) && x@ == y@
        })
    }
}

/// What the step does once the call's names and captures are known: record
/// the segment and rewrite the call, by kind (`sync$`, stripped, or by the
/// entry strategy, see `site_step_holds`).
pub open spec fn segment_step_holds(
    ctx: ExtractContext,
    call: MarkerCall,
    old: ExtractState,
    new: ExtractState,
    action: CallRewrite,
    rec: SegmentRecord,
    symbol: Seq<char>,
    display: Seq<char>,
    canonical: Seq<char>,
    hash: Seq<char>,
    entry: Option<Seq<char>>,
    scoped: Seq<Seq<char>>,
    local: Seq<Seq<char>>,
) -> bool {
    let expr = crate::opt_string_view(call.expr_code);
    let emit = emits_segment(views(ctx.strip_ctx_name@), ctx.strip_event_handlers, call.ctx_name@, call.ctx_kind);
    &&& new.segments@ == old.segments@.push(rec)
    &&& if call.is_sync {
        &&& record_is(rec, call, ctx.rel_path@, symbol, display, canonical, hash, entry, expr, scoped, local, true)
        &&& new.extra_top_items@ == old.extra_top_items@
        &&& new.ref_assignments@ == old.ref_assignments@
        &&& new.needs == old.needs
        &&& action matches CallRewrite::Rename(x) && x@ == "_qrlSync"@
    } else if !emit {
        &&& record_is(rec, call, ctx.rel_path@, symbol, display, canonical, hash, entry, None, Seq::empty(), local, false)
        &&& new.extra_top_items@ == old.extra_top_items@
        &&& new.ref_assignments@ == old.ref_assignments@
        &&& needs_with(old.needs, new.needs, 0)
        &&& action matches CallRewrite::Noop { callee, symbol: sy } && callee@ == noop_callee(ctx.mode) && sy@ == symbol
    } else {
        exists|site: QrlSite|
            #[trigger] site_step_holds(ctx, call, old, new, action, rec, symbol, display, canonical, hash, entry, scoped, local, site)
    }
}

/// What the step does for a valid marker call whose scope captures are
/// `scoped0` (after removing the callback's parameters), `sd` being the data
/// the entry policy reads and `rec` the new record: classify the names,
/// report functions referenced across the boundary and captures of a
/// non-function, name the segment, pick its entry, and record it.
pub open spec fn extract_parts_hold(
    ctx: ExtractContext,
    call: MarkerCall,
    old: ExtractState,
    new: ExtractState,
    action: CallRewrite,
    scoped0: Seq<Seq<char>>,
    sd: SegmentData,
    rec: SegmentRecord,
) -> bool {
    let g = ctx.global.view_of();
    let used = views(call.used_idents@);
    let (k, s, n) = classify_scoped(g, scoped0);
    let (s2, n2) = classify_used(g, used, k, s, n);
    let refs = fn_references(g, used, ctx.decls@, s2);
    let c03 = !call.in_jsx_attr && call.first_arg == FirstArg::Other && k.len() > 0;
    let scoped = if c03 { Seq::empty() } else { k };
    let base = base_name_of(ctx.stack_ctxt@);
    let count = count_of(old.segment_names@, base);
    let core = display_core(base, count);
    let hash = segment_hash_with_override(opt_view(ctx.scope), ctx.rel_path@, core, None);
    let symbol = symbol_name_of(ctx.mode, core, hash);
    let display = ctx.file_name@ + seq!['_'] + core;
    let canonical = canonical_filename_of(display, symbol);
    let local = append_new(s2, needed_locals(n2));
    let nd = old.diagnostics@.len();
    let nr = refs.len();
    &&& new.segment_names@ == old.segment_names@.insert(base, (count + 1) as u32)
    &&& views(new.wrappers@) == views(old.wrappers@) + crate::segment_rules::when(
        call.ctx_name@ != "$"@ && call.ctx_name@ != "sync$"@,
        call.wrapper_name@,
    )
    &&& new.diagnostics@.len() == nd + nr + (if c03 { 1int } else { 0int })
    &&& new.diagnostics@.take(nd as int) == old.diagnostics@
    &&& forall|i: int| 0 <= i < nr ==> error_is(#[trigger] new.diagnostics@[nd + i], "C02"@, ctx.file_name@, c02_message(refs[i]))
    &&& c03 ==> error_is(new.diagnostics@[(nd + nr) as int], "C03"@, ctx.file_name@, c03_message(k))
    &&& sd.origin@ == ctx.rel_path@
    &&& sd.ctx_kind == call.ctx_kind
    &&& sd.ctx_name@ == call.ctx_name@
    &&& views(sd.scoped_idents@) == scoped
    &&& segment_step_holds(
        ctx,
        call,
        old,
        new,
        action,
        rec,
        symbol,
        display,
        canonical,
        hash,
        policy_of(ctx.entry_strategy).entry_for_sym(entry_context(ctx.stack_ctxt@, call.pushed_ctx_name), sd),
        scoped,
        local,
    )
}

/// What the step does for a valid marker call whose scope captures are
/// `scoped0`: see `extract_parts_hold`.
pub open spec fn extract_holds(
    ctx: ExtractContext,
    call: MarkerCall,
    old: ExtractState,
    new: ExtractState,
    action: CallRewrite,
    scoped0: Seq<Seq<char>>,
) -> bool {
    exists|sd: SegmentData, rec: SegmentRecord| #[trigger] extract_parts_hold(ctx, call, old, new, action, scoped0, sd, rec)
}

/// What the step does at a marker call: a marker defined in the file whose
/// QRL form is not exported there is reported (C05) and the call kept (a JSX
/// attribute needs no QRL form);
/// otherwise the segment is extracted (see `extract_holds`), its captures
/// being the used names declared `const` or `let` in scope, sorted, without
/// the callback's parameters.
pub open spec fn marker_call_holds(
    ctx: ExtractContext,
    call: MarkerCall,
    old: ExtractState,
    new: ExtractState,
    action: CallRewrite,
) -> bool {
    if !call.in_jsx_attr && !has_key(ctx.marker_fn_sources@, call.ctx_name@) && !ctx.global.view_of().exports.contains(
        call.wrapper_name@,
    ) {
        &&& new.segment_names@ == old.segment_names@
        &&& new.segments@ == old.segments@
        &&& new.extra_top_items@ == old.extra_top_items@
        &&& new.ref_assignments@ == old.ref_assignments@
        &&& new.needs == old.needs
        &&& new.wrappers@ == old.wrappers@
        &&& new.diagnostics@.len() == old.diagnostics@.len() + 1
        &&& new.diagnostics@.take(old.diagnostics@.len() as int) == old.diagnostics@
        &&& error_is(new.diagnostics@.last(), "C05"@, ctx.file_name@, c05_message(call.ctx_name@, call.wrapper_name@))
        &&& action is Keep
    } else {
        exists|computed: Seq<Seq<char>>|
            #[trigger] scope_captures(computed, views(call.used_idents@), ctx.decls@) && extract_holds(
                ctx,
                call,
                old,
                new,
                action,
                without(computed, views(call.param_idents@)),
            )
    }
}

fn has_marker(sources: &Vec<(String, String)>, name: &str) -> (r: bool)
    ensures
        r == has_key(sources@, name@),
{
    let mut i: usize = 0;
    while i < sources.len()
        invariant
            i <= sources@.len(),
            forall|j: int| 0 <= j < i ==> (#[trigger] sources@[j]).0@ != name@,
        decreases sources@.len() - i,
    {
        if str_eq(sources[i].0.as_str(), name) {
            assert(sources@[i as int].0@ == name@);
            return true;
        }
        i += 1;
    }
    false
}

fn without_names(v: &Vec<String>, remove: &Vec<String>) -> (r: Vec<String>)
    ensures
        views(r@) == without(views(v@), views(remove@)),
{
    let ghost vv = views(v@);
    let mut r: Vec<String> = Vec::new();
    let mut i: usize = 0;
    assert(vv.take(0) =~= Seq::<Seq<char>>::empty());
    assert(views(r@) =~= Seq::<Seq<char>>::empty());
    while i < v.len()
        invariant
            i <= vv.len(),
            vv == views(v@),
            views(r@) == without(vv.take(i as int), views(remove@)),
        decreases vv.len() - i,
    {
        assert(vv.take(i + 1).drop_last() =~= vv.take(i as int));
        assert(vv.take(i + 1).last() == v@[i as int]@);
        if !contains_str(remove, v[i].as_str()) {
            let ghost prev = views(r@);
            r.push(crate::copy_string(&v[i]));
            assert(views(r@) =~= prev.push(v@[i as int]@));
        }
        i += 1;
    }
    assert(vv.take(vv.len() as int) =~= vv);
    r
}

fn error_diag(code: &str, file: &str, message: String) -> (d: Diagnostic)
    ensures
        error_is(d, code@, file@, message@),
{
    proof {
        reveal_strlit("optimizer");
    }
    Diagnostic {
        scope: String::from_str("optimizer"),
        category: DiagnosticCategory::Error,
        code: Some(String::from_str(code)),
        file: String::from_str(file),
        message,
        highlights: None,
        suggestions: None,
    }
}

pub(crate) fn copy_strings(v: &[String]) -> (r: Vec<String>)
    ensures
        views(r@) == views(v@),
{
    let mut r: Vec<String> = Vec::new();
    assert(views(r@) =~= Seq::<Seq<char>>::empty());
    extend_strings(&mut r, v);
    assert(views(r@) =~= views(v@));
    r
}

fn entry_stack(stack: &[String], pushed: bool) -> (r: Vec<String>)
    ensures
        r@ == entry_context(stack@, pushed),
{
    let n = if pushed && stack.len() > 0 { stack.len() - 1 } else { stack.len() };
    let mut r: Vec<String> = Vec::new();
    let mut i: usize = 0;
    while i < n
        invariant
            i <= n <= stack@.len(),
            r@ == stack@.take(i as int),
        decreases n - i,
    {
        r.push(stack[i].clone());
        assert(r@ =~= stack@.take(i + 1));
        i += 1;
    }
    assert(r@ =~= entry_context(stack@, pushed));
    r
}

fn needed_local_names(n: &Vec<(String, String, String)>) -> (r: Vec<String>)
    ensures
        views(r@) == needed_locals(needed_views(n@)),
{
    let ghost target = needed_locals(needed_views(n@));
    let mut r: Vec<String> = Vec::new();
    let mut i: usize = 0;
    while i < n.len()
        invariant
            i <= n@.len(),
            target == needed_locals(needed_views(n@)),
            views(r@) == target.take(i as int),
        decreases n@.len() - i,
    {
        let ghost prev = views(r@);
        r.push(crate::copy_string(&n[i].0));
        assert(views(r@) =~= prev.push(target[i as int]));
        assert(target.take(i + 1) =~= target.take(i as int).push(target[i as int]));
        i += 1;
    }
    assert(target.take(n@.len() as int) =~= target);
    r
}

fn symbol_hoisted(items: &Vec<HoistedConst>, symbol: &str) -> (r: bool)
    ensures
        r == symbol_hoisted_in(items@, symbol@),
{
    let mut i: usize = 0;
    while i < items.len()
        invariant
            i <= items@.len(),
            forall|j: int| 0 <= j < i ==> (#[trigger] items@[j]).symbol_name@ != symbol@,
        decreases items@.len() - i,
    {
        if str_eq(items[i].symbol_name.as_str(), symbol) {
            assert(items@[i as int].symbol_name@ == symbol@);
            return true;
        }
        i += 1;
    }
    false
}

/// Reports each function referenced across the boundary (C02), in order.
fn report_fn_references(diags: &mut Vec<Diagnostic>, refs: &Vec<String>, file: &str)
    ensures
        final(diags)@.len() == old(diags)@.len() + refs@.len(),
        final(diags)@.take(old(diags)@.len() as int) == old(diags)@,
        forall|j: int|
            0 <= j < refs@.len() ==> error_is(
                #[trigger] final(diags)@[old(diags)@.len() + j],
                "C02"@,
                file@,
                c02_message(views(refs@)[j]),
            ),
{
    let ghost od = diags@;
    let ghost nd = od.len();
    let mut i: usize = 0;
    while i < refs.len()
        invariant
            i <= refs@.len(),
            nd == od.len(),
            diags@.len() == nd + i,
            diags@.take(nd as int) == od,
            forall|j: int|
                0 <= j < i ==> error_is(#[trigger] diags@[nd + j], "C02"@, file@, c02_message(views(refs@)[j])),
        decreases refs@.len() - i,
    {
        let m = concat3(
            "Reference to identifier '",
            refs[i].as_str(),
            "' can not be used inside a Qrl($) scope because it's a function",
        );
        let ghost before = diags@;
        diags.push(error_diag("C02", file, m));
        assert(diags@.take(nd as int) =~= before.take(nd as int));
        assert forall|j: int| 0 <= j < i + 1 implies error_is(
            #[trigger] diags@[nd + j],
            "C02"@,
            file@,
            c02_message(views(refs@)[j]),
        ) by {
            if j < i {
                assert(diags@[nd + j] == before[nd + j]);
            }
        }
        i += 1;
    }
}

/// `segment_step_holds` reads of the state before the step only the
/// segments, the hoisted constants, the registrations and the imports needed.
proof fn lemma_step_frame(
    ctx: ExtractContext,
    call: MarkerCall,
    a: ExtractState,
    b: ExtractState,
    new: ExtractState,
    action: CallRewrite,
    rec: SegmentRecord,
    symbol: Seq<char>,
    display: Seq<char>,
    canonical: Seq<char>,
    hash: Seq<char>,
    entry: Option<Seq<char>>,
    scoped: Seq<Seq<char>>,
    local: Seq<Seq<char>>,
)
    requires
        a.segments@ == b.segments@,
        a.extra_top_items@ == b.extra_top_items@,
        a.ref_assignments@ == b.ref_assignments@,
        a.needs == b.needs,
        segment_step_holds(ctx, call, a, new, action, rec, symbol, display, canonical, hash, entry, scoped, local),
    ensures
        segment_step_holds(ctx, call, b, new, action, rec, symbol, display, canonical, hash, entry, scoped, local),
{
    let emit = emits_segment(views(ctx.strip_ctx_name@), ctx.strip_event_handlers, call.ctx_name@, call.ctx_kind);
    if !call.is_sync && emit {
        let site = choose|site: QrlSite|
            site_step_holds(ctx, call, a, new, action, rec, symbol, display, canonical, hash, entry, scoped, local, site);
        assert(site_step_holds(ctx, call, b, new, action, rec, symbol, display, canonical, hash, entry, scoped, local, site));
    }
}

/// A record of the call's segment with these names (the parent not resolved
/// yet).
fn new_record(
    call: &MarkerCall,
    names: &ContextNameResult,
    origin: &str,
    entry: Option<String>,
    expr: Option<String>,
    scoped: Vec<String>,
    local: Vec<String>,
    is_inline: bool,
) -> (rec: SegmentRecord)
    ensures
        record_is(
            rec,
            *call,
            origin@,
            names.symbol_name@,
            names.display_name@,
            names.canonical_filename@,
            names.hash@,
            crate::opt_string_view(entry),
            crate::opt_string_view(expr),
            views(scoped@),
            views(local@),
            is_inline,
        ),
{
    SegmentRecord {
        name: crate::copy_string(&names.symbol_name),
        display_name: crate::copy_string(&names.display_name),
        canonical_filename: crate::copy_string(&names.canonical_filename),
        entry,
        expr,
        scoped_idents: scoped,
        local_idents: local,
        ctx_name: crate::copy_string(&call.ctx_name),
        ctx_kind: call.ctx_kind,
        origin: String::from_str(origin),
        span: call.span,
        hash: crate::copy_string(&names.hash),
        is_inline,
        migrated_root_vars: Vec::new(),
        parent: None,
        pending_parent_span: call.parent_span,
        param_names: copy_opt_strings(&call.param_names),
    }
}

/// Records the segment of the call and says how the call is rewritten, once
/// its names, entry, captures and import names are known.
fn record_segment(
    state: &mut ExtractState,
    ctx: &ExtractContext,
    call: &MarkerCall,
    names: &ContextNameResult,
    entry: Option<String>,
    scoped: Vec<String>,
    local: Vec<String>,
) -> (action: CallRewrite)
    ensures
        final(state).segment_names@ == old(state).segment_names@,
        final(state).diagnostics@ == old(state).diagnostics@,
        final(state).wrappers@ == old(state).wrappers@,
        final(state).segments@.len() == old(state).segments@.len() + 1,
        segment_step_holds(
            *ctx,
            *call,
            *old(state),
            *final(state),
            action,
            final(state).segments@.last(),
            names.symbol_name@,
            names.display_name@,
            names.canonical_filename@,
            names.hash@,
            crate::opt_string_view(entry),
            views(scoped@),
            views(local@),
        ),
{
    proof {
        reveal_strlit("_qrlSync");
        reveal_strlit("_noopQrl");
        reveal_strlit("_noopQrlDEV");
    }
    let ghost entry_v = crate::opt_string_view(entry);
    let ghost scoped_v = views(scoped@);
    let ghost local_v = views(local@);
    let ghost symbol = names.symbol_name@;
    let ghost expr_v = crate::opt_string_view(call.expr_code);
    let ghost old_segments = state.segments@;
    let ghost old_state = *state;
    let emit = should_emit_segment(ctx.strip_ctx_name, ctx.strip_event_handlers, call.ctx_name.as_str(), call.ctx_kind);
    if call.is_sync {
        let expr = crate::copy_opt_string(&call.expr_code);
        let rec = new_record(call, names, ctx.rel_path, entry, expr, scoped, local, true);
        state.segments.push(rec);
        assert(state.segments@ == old_segments.push(rec));
        return CallRewrite::Rename(String::from_str("_qrlSync"));
    }
    if !emit {
        let empty: Vec<String> = Vec::new();
        assert(views(empty@) =~= Seq::<Seq<char>>::empty());
        let rec = new_record(call, names, ctx.rel_path, entry, None, empty, local, false);
        state.segments.push(rec);
        assert(state.segments@ == old_segments.push(rec));
        state.needs.noop_qrl = true;
        let dev = match ctx.mode {
            EmitMode::Dev | EmitMode::Hmr => true,
            _ => false,
        };
        let callee = String::from_str(if dev { "_noopQrlDEV" } else { "_noopQrl" });
        return CallRewrite::Noop { callee, symbol: crate::copy_string(&names.symbol_name) };
    }
    let action = record_emitted(state, ctx, call, names, entry, scoped, local);
    proof {
        let site = choose|site: QrlSite|
            #[trigger] site_step_holds(*ctx, *call, old_state, *state, action, state.segments@.last(), symbol,
                names.display_name@, names.canonical_filename@, names.hash@, entry_v, scoped_v, local_v, site);
        assert(site_step_holds(*ctx, *call, old_state, *state, action, state.segments@.last(), symbol,
            names.display_name@, names.canonical_filename@, names.hash@, entry_v, scoped_v, local_v, site));
    }
    action
}

/// Records an emitted segment and rewrites its call, by the entry strategy.
fn record_emitted(
    state: &mut ExtractState,
    ctx: &ExtractContext,
    call: &MarkerCall,
    names: &ContextNameResult,
    entry: Option<String>,
    scoped: Vec<String>,
    local: Vec<String>,
) -> (action: CallRewrite)
    ensures
        final(state).segment_names@ == old(state).segment_names@,
        final(state).diagnostics@ == old(state).diagnostics@,
        final(state).wrappers@ == old(state).wrappers@,
        final(state).segments@ == old(state).segments@.push(final(state).segments@.last()),
        exists|site: QrlSite|
            #[trigger] site_step_holds(
                *ctx,
                *call,
                *old(state),
                *final(state),
                action,
                final(state).segments@.last(),
                names.symbol_name@,
                names.display_name@,
                names.canonical_filename@,
                names.hash@,
                crate::opt_string_view(entry),
                views(scoped@),
                views(local@),
                site,
            ),
{
    proof {
        reveal_strlit("inlinedQrl");
        reveal_strlit("inlinedQrlDEV");
    }
    let ghost entry_v = crate::opt_string_view(entry);
    let ghost scoped_v = views(scoped@);
    let ghost local_v = views(local@);
    let ghost symbol = names.symbol_name@;
    let ghost expr_v = crate::opt_string_view(call.expr_code);
    let ghost old_segments = state.segments@;
    let ghost old_state = *state;
    let already = symbol_hoisted(&state.extra_top_items, names.symbol_name.as_str());
    let fn_body: Option<&str> = if call.first_arg == FirstArg::Function || call.in_jsx_attr {
        match &call.expr_code {
            Some(e) => Some(e.as_str()),
            None => None,
        }
    } else {
        None
    };
    assert(crate::hash::opt_view(fn_body) == (if call.first_arg == FirstArg::Function || call.in_jsx_attr {
        expr_v
    } else {
        None
    }));
    let site = qrl_site(
        ctx.entry_strategy,
        ctx.mode,
        ctx.explicit_extensions,
        ctx.extension,
        names.symbol_name.as_str(),
        names.canonical_filename.as_str(),
        call.ctx_name.as_str(),
        call.wrapper_name.as_str(),
        &scoped,
        fn_body,
        already,
    );
    let ghost site_g = site;
    let hoist = match ctx.entry_strategy {
        EntryStrategy::Hoist => true,
        _ => false,
    } && match ctx.mode {
        EmitMode::Lib => false,
        _ => true,
    };
    let inl = !hoist && is_inline_mode(ctx.entry_strategy, ctx.mode);
    let captures = if scoped.len() > 0 {
        Some(copy_strings(scoped.as_slice()))
    } else {
        None
    };
    let expr = crate::copy_opt_string(&call.expr_code);
    let scoped_copy = copy_strings(scoped.as_slice());
    let rec = new_record(call, names, ctx.rel_path, entry, expr, scoped, local, hoist || inl);
    state.segments.push(rec);
    assert(state.segments@ == old_segments.push(rec));
    if inl {
        state.needs.inlined_qrl = true;
        let dev = match ctx.mode {
            EmitMode::Dev | EmitMode::Hmr => true,
            _ => false,
        };
        let callee = if call.in_jsx_attr {
            String::from_str(if dev { "inlinedQrlDEV" } else { "inlinedQrl" })
        } else {
            crate::copy_string(&call.wrapper_name)
        };
        let action = CallRewrite::Inline {
            callee,
            symbol: crate::copy_string(&names.symbol_name),
            captures,
        };
        assert(site_step_holds(*ctx, *call, old_state, *state, action, state.segments@.last(), symbol,
            names.display_name@, names.canonical_filename@, names.hash@, entry_v, scoped_v, local_v, site_g));
        return action;
    }
    let ghost old_extra = state.extra_top_items@;
    match site.hoisted {
        Some((n, r)) => {
            state.extra_top_items.push(
                HoistedConst {
                    name: n,
                    rhs_code: r,
                    symbol_name: crate::copy_string(&names.symbol_name),
                    is_root_level: call.at_root,
                },
            );
            assert(state.extra_top_items@.take(old_extra.len() as int) =~= old_extra);
        },
        None => {},
    }
    let ghost old_refs = views(state.ref_assignments@);
    match site.registration {
        Some(reg) => {
            state.ref_assignments.push(reg);
            assert(views(state.ref_assignments@) =~= old_refs + registration_list(site_g));
        },
        None => {
            assert(views(state.ref_assignments@) =~= old_refs + registration_list(site_g));
        },
    }
    if hoist {
        state.needs.noop_qrl = true;
    } else {
        state.needs.qrl = true;
    }
    let code = if call.in_jsx_attr {
        qrl_ref_text(names.symbol_name.as_str(), &scoped_copy)
    } else {
        match site.replacement {
            Some(x) => x,
            None => String::new(),
        }
    };
    let action = CallRewrite::Replace(code);
    assert(site_step_holds(*ctx, *call, old_state, *state, action, state.segments@.last(), symbol,
        names.display_name@, names.canonical_filename@, names.hash@, entry_v, scoped_v, local_v, site_g));
    action
}

/// The step at a marker call (see `marker_call_holds`): update the state and
/// say how the call is rewritten.
pub fn marker_call_step(state: &mut ExtractState, ctx: &ExtractContext, call: &MarkerCall) -> (action: CallRewrite)
    requires
        count_of(old(state).segment_names@, base_name_of(ctx.stack_ctxt@)) < u32::MAX,
    ensures
        marker_call_holds(*ctx, *call, *old(state), *final(state), action),
{
    proof {
        reveal_strlit("C05");
        reveal_strlit("C03");
        reveal_strlit("$");
        reveal_strlit("sync$");
    }
    let ghost old_state = *state;
    if !call.in_jsx_attr && !has_marker(ctx.marker_fn_sources, call.ctx_name.as_str()) && !ctx.global.has_export_symbol(
        call.wrapper_name.as_str(),
    ) {
        let mut m = concat3("Found '", call.ctx_name.as_str(), "' but did not find the corresponding '");
        m.append(call.wrapper_name.as_str());
        m.append("' exported in the same file. Please check that it is exported and spelled correctly");
        let ghost od = state.diagnostics@;
        state.diagnostics.push(error_diag("C05", ctx.file_name, m));
        assert(state.diagnostics@.take(od.len() as int) =~= od);
        return CallRewrite::Keep;
    }
    // Captures from the scope, without the callback's parameters.
    let computed = compute_scoped_idents(&call.used_idents, ctx.decls);
    let scoped0 = without_names(&computed, &call.param_idents);
    // Classification, and the functions referenced across the boundary.
    let c = classify_captures(ctx.global, &scoped0, &call.used_idents, ctx.decls);
    let ghost nd = state.diagnostics@.len();
    report_fn_references(&mut state.diagnostics, &c.fn_references, ctx.file_name);
    // A non-function that captures is reported, and captures nothing.
    let c03 = !call.in_jsx_attr && call.first_arg == FirstArg::Other && c.scoped.len() > 0;
    if c03 {
        let caps = comma_join(&c.scoped);
        let m = concat2("Qrl($) scope is not a function, but it's capturing local identifiers: ", caps.as_str());
        let ghost before = state.diagnostics@;
        state.diagnostics.push(error_diag("C03", ctx.file_name, m));
        assert(state.diagnostics@.take(nd as int) =~= before.take(nd as int));
        assert forall|j: int| 0 <= j < c.fn_references@.len() implies error_is(
            #[trigger] state.diagnostics@[nd + j],
            "C02"@,
            ctx.file_name@,
            c02_message(views(c.fn_references@)[j]),
        ) by {
            assert(state.diagnostics@[nd + j] == before[nd + j]);
        }
    }
    let ghost k = views(c.scoped@);
    let scoped = if c03 {
        Vec::new()
    } else {
        copy_strings(c.scoped.as_slice())
    };
    assert(views(scoped@) =~= (if c03 { Seq::<Seq<char>>::empty() } else { k }));
    // Names.
    let names = register_context_name(
        ctx.stack_ctxt,
        &mut state.segment_names,
        ctx.scope,
        ctx.rel_path,
        ctx.file_name,
        &ctx.mode,
        None,
        None,
        None,
    );
    // Entry.
    let sd = SegmentData {
        display_name: String::new(),
        hash: crate::copy_string(&names.hash),
        name: crate::copy_string(&names.symbol_name),
        ctx_name: crate::copy_string(&call.ctx_name),
        ctx_kind: call.ctx_kind,
        origin: String::from_str(ctx.rel_path),
        extension: String::from_str(ctx.extension),
        span: (0, 0),
        parent: None,
        scoped_idents: copy_strings(scoped.as_slice()),
        captures: scoped.len() > 0,
        capture_names: copy_strings(scoped.as_slice()),
    };
    let policy = parse_entry_strategy(&ctx.entry_strategy);
    let estack = entry_stack(ctx.stack_ctxt, call.pushed_ctx_name);
    let entry = policy.get_entry_for_sym(estack.as_slice(), &sd);
    let ghost entry_v = crate::opt_string_view(entry);
    assert(entry_v == policy_of(ctx.entry_strategy).entry_for_sym(
        entry_context(ctx.stack_ctxt@, call.pushed_ctx_name),
        sd,
    ));
    // Import names of the segment.
    let mut local = copy_strings(c.self_imports.as_slice());
    let nl = needed_local_names(&c.needed);
    append_all_new(&mut local, &nl);
    let ghost local_v = views(local@);
    let ghost scoped_v = views(scoped@);
    let plain = str_eq(call.ctx_name.as_str(), "$") || str_eq(call.ctx_name.as_str(), "sync$");
    push_when(&mut state.wrappers, !plain, call.wrapper_name.as_str());
    let ghost mid = *state;
    let action = record_segment(state, ctx, call, &names, entry, scoped, local);
    proof {
        let rec = state.segments@.last();
        lemma_step_frame(
            *ctx,
            *call,
            mid,
            old_state,
            *state,
            action,
            rec,
            names.symbol_name@,
            names.display_name@,
            names.canonical_filename@,
            names.hash@,
            entry_v,
            scoped_v,
            local_v,
        );
        let base = base_name_of(ctx.stack_ctxt@);
        let count = count_of(old_state.segment_names@, base);
        assert(nd == old_state.diagnostics@.len());
        assert(views(sd.scoped_idents@) == scoped_v);
        assert(state.segment_names@ == old_state.segment_names@.insert(base, (count + 1) as u32));
        assert(extract_parts_hold(*ctx, *call, old_state, *state, action, views(scoped0@), sd, rec));
        assert(scope_captures(views(computed@), views(call.used_idents@), ctx.decls@));
    }
    action
}

// ---------------------------------------------------------------------------
// The step at the end of the program
// ---------------------------------------------------------------------------

/// What the root module gains once the walk is done.
pub struct RootEdits {
    /// The import statements put at the top, top first.
    pub imports: Vec<String>,
    /// The statements put right after the imports: the root-level hoisted
    /// constants and the registration calls.
    pub hoisted: Vec<String>,
}

/// The step at the end of the program: the imports the root module gains (the
/// synthetic bindings, the QRL wrappers of the recorded segments, the helpers
/// the rewritten calls use) and the hoisted statements (see
/// `root_imports_are` and `root_hoisted_spec`).
pub fn exit_program_step(state: &ExtractState, ctx: &ExtractContext, core_module: &str) -> (r: RootEdits)
    requires
        crate::dependency_analysis::distinct_keys(ctx.marker_fn_sources@),
    ensures
        root_imports_are(
            state.needs,
            ctx.mode,
            core_module@,
            views(state.wrappers@),
            ctx.marker_fn_sources@,
            ctx.global.view_of().synthetic,
            views(r.imports@),
        ),
        views(r.hoisted@) == root_hoisted_spec(state.extra_top_items@, views(state.ref_assignments@), ctx.mode),
{
    let imports = root_import_statements(
        state.needs,
        ctx.mode,
        core_module,
        &state.wrappers,
        ctx.marker_fn_sources,
        ctx.global,
    );
    let hoisted = root_hoisted_statements(&state.extra_top_items, &state.ref_assignments, ctx.mode);
    RootEdits { imports, hoisted }
}

// ---------------------------------------------------------------------------
// Laws across the steps
// ---------------------------------------------------------------------------

/// Under the Segment strategy outside Lib mode, a marker call at the module's
/// root whose segment is extracted (its call replaced) and not hoisted before
/// gets its `q_` constant, named after the segment's symbol, declared among
/// the statements the end-of-program step puts after the root's imports.
pub proof fn lemma_extracted_constant_reaches_root(
    ctx: ExtractContext,
    call: MarkerCall,
    old: ExtractState,
    new: ExtractState,
    action: CallRewrite,
)
    requires
        marker_call_holds(ctx, call, old, new, action),
        ctx.entry_strategy == EntryStrategy::Segment,
        ctx.mode != EmitMode::Lib,
        call.at_root,
        !call.is_sync,
        action is Replace,
        new.segments@.len() > 0,
        !symbol_hoisted_in(old.extra_top_items@, new.segments@.last().name@),
    ensures
        new.extra_top_items@.len() == old.extra_top_items@.len() + 1,
        new.extra_top_items@.last().symbol_name@ == new.segments@.last().name@,
        new.extra_top_items@.last().name@ == "q_"@ + new.segments@.last().name@,
        root_hoisted_spec(new.extra_top_items@, views(new.ref_assignments@), ctx.mode).contains(
            "const "@ + new.extra_top_items@.last().name@ + " = "@ + new.extra_top_items@.last().rhs_code@ + ";"@,
        ),
{
    let computed = choose|computed: Seq<Seq<char>>|
        #[trigger] scope_captures(computed, views(call.used_idents@), ctx.decls@) && extract_holds(
            ctx,
            call,
            old,
            new,
            action,
            without(computed, views(call.param_idents@)),
        );
    let scoped0 = without(computed, views(call.param_idents@));
    let (sd, rec) = choose|sd: SegmentData, rec: SegmentRecord|
        #[trigger] extract_parts_hold(ctx, call, old, new, action, scoped0, sd, rec);
    assert(extract_parts_hold(ctx, call, old, new, action, scoped0, sd, rec));
    assert(new.segments@ == old.segments@.push(rec));
    assert(new.segments@.last() == rec);
    let g = ctx.global.view_of();
    let used = views(call.used_idents@);
    let (k, s0, n0) = classify_scoped(g, scoped0);
    let (s2, n2) = classify_used(g, used, k, s0, n0);
    let c03 = !call.in_jsx_attr && call.first_arg == FirstArg::Other && k.len() > 0;
    let scoped = if c03 { Seq::empty() } else { k };
    let base = base_name_of(ctx.stack_ctxt@);
    let count = count_of(old.segment_names@, base);
    let core = display_core(base, count);
    let hash = segment_hash_with_override(opt_view(ctx.scope), ctx.rel_path@, core, None);
    let symbol = symbol_name_of(ctx.mode, core, hash);
    let display = ctx.file_name@ + seq!['_'] + core;
    let canonical = canonical_filename_of(display, symbol);
    let local = append_new(s2, needed_locals(n2));
    let entry = policy_of(ctx.entry_strategy).entry_for_sym(entry_context(ctx.stack_ctxt@, call.pushed_ctx_name), sd);
    assert(segment_step_holds(ctx, call, old, new, action, rec, symbol, display, canonical, hash, entry, scoped, local));
    let site = choose|site: QrlSite|
        #[trigger] site_step_holds(ctx, call, old, new, action, rec, symbol, display, canonical, hash, entry, scoped, local, site);
    assert(site_step_holds(ctx, call, old, new, action, rec, symbol, display, canonical, hash, entry, scoped, local, site));
    assert(rec.name@ == symbol);
    assert(site.hoisted is Some);
    let items = new.extra_top_items@;
    let last = items.last();
    assert(items.drop_last() == old.extra_top_items@) by {
        assert(items.take(old.extra_top_items@.len() as int) == old.extra_top_items@);
        assert(items.drop_last() =~= items.take(old.extra_top_items@.len() as int));
    }
    assert(last.is_root_level);
    let line = "const "@ + last.name@ + " = "@ + last.rhs_code@ + ";"@;
    assert(crate::segment_rules::root_const_lines(items) == crate::segment_rules::root_const_lines(
        old.extra_top_items@,
    ).push(line));
    assert(crate::segment_rules::root_const_lines(items).last() == line);
    let lines = crate::segment_rules::root_const_lines(items);
    assert(lines.contains(line)) by {
        assert(lines[lines.len() - 1] == line);
    }
    assert(items[items.len() - 1].is_root_level);
    let whole = root_hoisted_spec(items, views(new.ref_assignments@), ctx.mode);
    assert(whole == lines + views(new.ref_assignments@));
    assert(whole[lines.len() - 1] == line);
}

fn copy_opt_strings(o: &Option<Vec<String>>) -> (r: Option<Vec<String>>)
    ensures
        crate::module_output::opt_views(r) == crate::module_output::opt_views(*o),
{
    match o {
        Some(v) => Some(copy_strings(v.as_slice())),
        None => None,
    }
}

} // verus!
