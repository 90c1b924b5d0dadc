//! Decisions of the segment extraction that read no syntax tree: whether a
//! marker call becomes a segment, whether segments stay inline, where a QRL
//! wrapper is imported from, the parent of each segment, and what the
//! transformed root module gains (imports and hoisted declarations) or loses
//! (the imports of marker functions), and what replaces each marker call.

use vstd::prelude::*;

use crate::code_move::views;
use crate::dependency_analysis::{distinct_keys, has_key, key_index};
use crate::migration::starts_with;
use crate::module_output::SegmentRecord;
use crate::code_move::{format_import_stmt, import_stmt_spec};
use crate::collector::{import_view, GlobalCollect, Import, ImportView};
use crate::item_order::HoistedConst;
use crate::inlined_fn::join_comma;
use crate::text::{chars_of, contains_str, distinct_strings, insert_sorted, matches_at, push_char, sorted_lex, string_of};
use crate::types::{CtxKind, EmitMode, EntryStrategy};

verus! {

/// A `$` call of context `ctx_name` becomes a segment: no `strip_ctx_name`
/// entry is a prefix of its name, and it is no event handler when event
/// handlers are stripped.
pub open spec fn emits_segment(
    strip_ctx_name: Seq<Seq<char>>,
    strip_event_handlers: bool,
    ctx_name: Seq<char>,
    ctx_kind: CtxKind,
) -> bool {
    &&& !exists|i: int| 0 <= i < strip_ctx_name.len() && starts_with(ctx_name, #[trigger] strip_ctx_name[i])
    &&& !(strip_event_handlers && ctx_kind == CtxKind::EventHandler)
}

/// Whether a `$` call of context `ctx_name` becomes a segment (see
/// `emits_segment`).
pub fn should_emit_segment(
    strip_ctx_name: &Vec<String>,
    strip_event_handlers: bool,
    ctx_name: &str,
    ctx_kind: CtxKind,
) -> (r: bool)
    ensures
        r == emits_segment(views(strip_ctx_name@), strip_event_handlers, ctx_name@, ctx_kind),
{
    let v = chars_of(ctx_name);
    let mut i: usize = 0;
    while i < strip_ctx_name.len()
        invariant
            i <= strip_ctx_name@.len(),
            v@ == ctx_name@,
            forall|k: int| 0 <= k < i ==> !starts_with(ctx_name@, #[trigger] views(strip_ctx_name@)[k]),
        decreases strip_ctx_name@.len() - i,
    {
        let p = chars_of(strip_ctx_name[i].as_str());
        if matches_at(&v, &p, 0) {
            proof {
                assert(views(strip_ctx_name@)[i as int] == p@);
                assert(v@.subrange(0, p@.len() as int) == p@);
            }
            return false;
        }
        proof {
            assert(views(strip_ctx_name@)[i as int] == p@);
        }
        i += 1;
    }
    !(strip_event_handlers && ctx_kind == CtxKind::EventHandler)
}

/// Segments stay in their module: the inline and hoist strategies, and the
/// library mode.
pub open spec fn inline_mode(strategy: EntryStrategy, mode: EmitMode) -> bool {
    strategy == EntryStrategy::Inline || strategy == EntryStrategy::Hoist || mode == EmitMode::Lib
}

/// Whether segments stay in their module (see `inline_mode`).
pub fn is_inline_mode(strategy: EntryStrategy, mode: EmitMode) -> (r: bool)
    ensures
        r == inline_mode(strategy, mode),
{
    strategy == EntryStrategy::Inline || strategy == EntryStrategy::Hoist || mode == EmitMode::Lib
}

/// The source of the QRL wrapper `wrapper_name`: for `{name}Qrl`, the source
/// that the marker `{name}$` was imported from, if known; the core module
/// otherwise.
pub open spec fn wrapper_source(
    marker_fn_sources: Seq<(String, String)>,
    core_module: Seq<char>,
    wrapper_name: Seq<char>,
) -> Seq<char> {
    let n = wrapper_name.len();
    if n >= 3 && wrapper_name.subrange(n - 3, n as int) == "Qrl"@ {
        let marker = wrapper_name.subrange(0, n - 3).push('$');
        if has_key(marker_fn_sources, marker) {
            marker_fn_sources[key_index(marker_fn_sources, marker)].1@
        } else {
            core_module
        }
    } else {
        core_module
    }
}

/// Where the QRL wrapper `wrapper_name` is imported from (see
/// `wrapper_source`); `marker_fn_sources` maps marker names to their sources.
pub fn find_wrapper_source(
    marker_fn_sources: &Vec<(String, String)>,
    core_module: &str,
    wrapper_name: &str,
) -> (r: String)
    requires
        distinct_keys(marker_fn_sources@),
    ensures
        r@ == wrapper_source(marker_fn_sources@, core_module@, wrapper_name@),
{
    let v = chars_of(wrapper_name);
    let suffix = chars_of("Qrl");
    proof {
        reveal_strlit("Qrl");
    }
    if v.len() < 3 || !matches_at(&v, &suffix, v.len() - 3) {
        return String::from_str(core_module);
    }
    let mut marker = string_of(&v, 0, v.len() - 3);
    push_char(&mut marker, '$');
    match crate::dependency_analysis::find_key(marker_fn_sources, marker.as_str()) {
        Some(k) => crate::copy_string(&marker_fn_sources[k].1),
        None => String::from_str(core_module),
    }
}

/// The name of the last of `segs` whose span starts at `start`.
pub open spec fn segment_starting_at(segs: Seq<SegmentRecord>, start: u32) -> Option<Seq<char>>
    decreases segs.len(),
{
    if segs.len() == 0 {
        None
    } else if segs.last().span.0 == start {
        Some(segs.last().name@)
    } else {
        segment_starting_at(segs.drop_last(), start)
    }
}

/// `new` is `old` with its parent resolved among `segs`: a segment waiting for
/// the parent whose call starts at offset `p` gets the name of the (last)
/// segment starting there; nothing else changes.
pub open spec fn parent_resolved(old: SegmentRecord, new: SegmentRecord, segs: Seq<SegmentRecord>) -> bool {
    &&& crate::opt_string_view(new.parent) == match old.pending_parent_span {
        Some(p) => match segment_starting_at(segs, p) {
            Some(n) => Some(n),
            None => crate::opt_string_view(old.parent),
        },
        None => crate::opt_string_view(old.parent),
    }
    &&& new.name == old.name
    &&& new.display_name == old.display_name
    &&& new.canonical_filename == old.canonical_filename
    &&& new.entry == old.entry
    &&& new.expr == old.expr
    &&& new.scoped_idents == old.scoped_idents
    &&& new.local_idents == old.local_idents
    &&& new.ctx_name == old.ctx_name
    &&& new.ctx_kind == old.ctx_kind
    &&& new.origin == old.origin
    &&& new.span == old.span
    &&& new.hash == old.hash
    &&& new.is_inline == old.is_inline
    &&& new.migrated_root_vars == old.migrated_root_vars
    &&& new.pending_parent_span == old.pending_parent_span
    &&& new.param_names == old.param_names
}

fn starting_at(starts: &Vec<(u32, String)>, start: u32, Ghost(segs): Ghost<Seq<SegmentRecord>>) -> (r: Option<
    String,
>)
    requires
        starts@.len() == segs.len(),
        forall|k: int|
            0 <= k < segs.len() ==> (#[trigger] starts@[k]).0 == segs[k].span.0 && starts@[k].1@
                == segs[k].name@,
    ensures
        crate::opt_string_view(r) == segment_starting_at(segs, start),
{
    let mut i: usize = starts.len();
    proof {
        assert(segs.take(i as int) =~= segs);
    }
    while i > 0
        invariant
            i <= starts@.len() == segs.len(),
            forall|k: int|
                0 <= k < segs.len() ==> (#[trigger] starts@[k]).0 == segs[k].span.0 && starts@[k].1@
                    == segs[k].name@,
            segment_starting_at(segs, start) == segment_starting_at(segs.take(i as int), start),
        decreases i,
    {
        proof {
            assert(segs.take(i as int).drop_last() =~= segs.take(i - 1));
            assert(segs.take(i as int).last() == segs[i - 1]);
        }
        if starts[i - 1].0 == start {
            return Some(crate::copy_string(&starts[i - 1].1));
        }
        i -= 1;
    }
    None
}

/// Resolve the parent of each segment that waits for one: the segment whose
/// call starts where the parent's call does (see `parent_resolved`).
pub fn patch_segment_parents(segments: &mut Vec<SegmentRecord>)
    ensures
        final(segments)@.len() == old(segments)@.len(),
        forall|k: int|
            0 <= k < final(segments)@.len() ==> parent_resolved(
                old(segments)@[k],
                #[trigger] final(segments)@[k],
                old(segments)@,
            ),
{
    let ghost orig = segments@;
    let mut starts: Vec<(u32, String)> = Vec::new();
    let mut j: usize = 0;
    while j < segments.len()
        invariant
            j <= segments@.len(),
            segments@ == orig,
            starts@.len() == j,
            forall|k: int|
                0 <= k < j ==> (#[trigger] starts@[k]).0 == orig[k].span.0 && starts@[k].1@
                    == orig[k].name@,
        decreases segments@.len() - j,
    {
        starts.push((segments[j].span.0, crate::copy_string(&segments[j].name)));
        j += 1;
    }
    let mut rest: Vec<SegmentRecord> = Vec::new();
    core::mem::swap(segments, &mut rest);
    let n = rest.len();
    let mut k: usize = 0;
    while k < n
        invariant
            k <= n == orig.len(),
            starts@.len() == orig.len(),
            forall|q: int|
                0 <= q < orig.len() ==> (#[trigger] starts@[q]).0 == orig[q].span.0 && starts@[q].1@
                    == orig[q].name@,
            rest@ == orig.subrange(k as int, n as int),
            segments@.len() == k,
            forall|q: int| 0 <= q < k ==> parent_resolved(orig[q], #[trigger] segments@[q], orig),
        decreases n - k,
    {
        let mut seg = rest.remove(0);
        proof {
            assert(seg == orig[k as int]);
            assert(rest@ =~= orig.subrange(k + 1, n as int));
        }
        match seg.pending_parent_span {
            Some(p) => {
                match starting_at(&starts, p, Ghost(orig)) {
                    Some(name) => {
                        seg.parent = Some(name);
                    },
                    None => {},
                }
            },
            None => {},
        }
        segments.push(seg);
        k += 1;
    }
}

// ---------------------------------------------------------------------------
// Imports the transformed root module gains
// ---------------------------------------------------------------------------

/// What the transform of a module needs imported from the core module.
#[derive(Debug, Clone, Copy)]
pub struct ImportNeeds {
    pub qrl: bool,
    pub inlined_qrl: bool,
    pub noop_qrl: bool,
    pub jsx_sorted: bool,
    pub jsx_split: bool,
    pub fragment: bool,
    pub fn_signal: bool,
    pub wrap_prop: bool,
}

/// `name` as a one-element list when `b` holds, else the empty list.
pub open spec fn when(b: bool, name: Seq<char>) -> Seq<Seq<char>> {
    if b {
        seq![name]
    } else {
        Seq::empty()
    }
}

/// The core-module helpers the root imports, in this order: `qrl`,
/// `inlinedQrl`, `_noopQrl` (their `DEV` forms in Dev and HMR modes),
/// `_jsxSorted`, `_jsxSplit`, `Fragment`, `_fnSignal`, `_wrapProp`.
pub open spec fn helper_imports(needs: ImportNeeds, mode: EmitMode) -> Seq<Seq<char>> {
    let dev = mode == EmitMode::Dev || mode == EmitMode::Hmr;
    when(needs.qrl, if dev { "qrlDEV"@ } else { "qrl"@ }) + when(
        needs.inlined_qrl,
        if dev { "inlinedQrlDEV"@ } else { "inlinedQrl"@ },
    ) + when(needs.noop_qrl, if dev { "_noopQrlDEV"@ } else { "_noopQrl"@ }) + when(
        needs.jsx_sorted,
        "_jsxSorted"@,
    ) + when(needs.jsx_split, "_jsxSplit"@) + when(needs.fragment, "Fragment"@) + when(
        needs.fn_signal,
        "_fnSignal"@,
    ) + when(needs.wrap_prop, "_wrapProp"@)
}

/// `import { name } from "source";` for each name.
pub open spec fn plain_imports(names: Seq<Seq<char>>, source: Seq<char>) -> Seq<Seq<char>> {
    names.map_values(|n: Seq<char>| import_stmt_spec(n, n, source))
}

/// The wrapper imports: each name, from where its marker came.
pub open spec fn wrapper_imports(names: Seq<Seq<char>>, marker_fn_sources: Seq<(String, String)>, core_module: Seq<char>) -> Seq<
    Seq<char>,
> {
    names.map_values(
        |n: Seq<char>| import_stmt_spec(n, n, wrapper_source(marker_fn_sources, core_module, n)),
    )
}

/// The imports of the optimizer's synthetic bindings, last first.
pub open spec fn synthetic_imports_rev(syn: Seq<(Seq<char>, ImportView)>) -> Seq<Seq<char>>
    decreases syn.len(),
{
    if syn.len() == 0 {
        Seq::empty()
    } else {
        seq![import_stmt_spec(syn.last().1.1, syn.last().0, syn.last().1.0)] + synthetic_imports_rev(
            syn.drop_last(),
        )
    }
}

/// `r` is the block of import statements the root module gains, top first:
/// the synthetic bindings' imports (last first), then the QRL wrappers that the
/// segments call (sorted, each once, without the helpers), then the helpers.
pub open spec fn root_imports_are(
    needs: ImportNeeds,
    mode: EmitMode,
    core_module: Seq<char>,
    wrapper_names: Seq<Seq<char>>,
    marker_fn_sources: Seq<(String, String)>,
    synthetic: Seq<(Seq<char>, ImportView)>,
    r: Seq<Seq<char>>,
) -> bool {
    let helpers = helper_imports(needs, mode);
    exists|wrappers: Seq<Seq<char>>|
        {
            &&& sorted_lex(wrappers)
            &&& distinct_strings(wrappers)
            &&& forall|w: Seq<char>|
                #![trigger wrappers.contains(w)]
                wrappers.contains(w) <==> (wrapper_names.contains(w) && !helpers.contains(w))
            &&& r == synthetic_imports_rev(synthetic) + wrapper_imports(wrappers, marker_fn_sources, core_module)
                + plain_imports(helpers, core_module)
        }
}

pub(crate) fn push_when(v: &mut Vec<String>, b: bool, name: &str)
    ensures
        views(final(v)@) == views(old(v)@) + when(b, name@),
{
    let ghost before = views(v@);
    if b {
        v.push(String::from_str(name));
        assert(views(v@) =~= before + seq![name@]);
    } else {
        assert(views(v@) =~= before + Seq::<Seq<char>>::empty());
    }
}

/// The import statements the transformed root module gains, top first (see
/// `root_imports_are`): `wrapper_names` are the QRL wrappers of the segments'
/// markers, `marker_fn_sources` where each marker was imported from.
pub fn root_import_statements(
    needs: ImportNeeds,
    mode: EmitMode,
    core_module: &str,
    wrapper_names: &Vec<String>,
    marker_fn_sources: &Vec<(String, String)>,
    global: &GlobalCollect,
) -> (r: Vec<String>)
    requires
        distinct_keys(marker_fn_sources@),
    ensures
        root_imports_are(
            needs,
            mode,
            core_module@,
            views(wrapper_names@),
            marker_fn_sources@,
            global.view_of().synthetic,
            views(r@),
        ),
{
    let dev = match mode {
        EmitMode::Dev | EmitMode::Hmr => true,
        _ => false,
    };
    let mut helpers: Vec<String> = Vec::new();
    assert(views(helpers@) =~= Seq::<Seq<char>>::empty());
    push_when(&mut helpers, needs.qrl, if dev { "qrlDEV" } else { "qrl" });
    push_when(&mut helpers, needs.inlined_qrl, if dev { "inlinedQrlDEV" } else { "inlinedQrl" });
    push_when(&mut helpers, needs.noop_qrl, if dev { "_noopQrlDEV" } else { "_noopQrl" });
    push_when(&mut helpers, needs.jsx_sorted, "_jsxSorted");
    push_when(&mut helpers, needs.jsx_split, "_jsxSplit");
    push_when(&mut helpers, needs.fragment, "Fragment");
    push_when(&mut helpers, needs.fn_signal, "_fnSignal");
    push_when(&mut helpers, needs.wrap_prop, "_wrapProp");
    let ghost hv = helper_imports(needs, mode);
    assert(views(helpers@) =~= hv);
    // The wrappers, sorted and each once.
    let ghost wn = views(wrapper_names@);
    let mut wrappers: Vec<String> = Vec::new();
    let mut i: usize = 0;
    while i < wrapper_names.len()
        invariant
            i <= wrapper_names@.len(),
            wn == views(wrapper_names@),
            hv == views(helpers@),
            sorted_lex(views(wrappers@)),
            distinct_strings(views(wrappers@)),
            forall|w: Seq<char>|
                #![trigger views(wrappers@).contains(w)]
                views(wrappers@).contains(w) <==> (wn.take(i as int).contains(w) && !hv.contains(w)),
        decreases wrapper_names@.len() - i,
    {
        let w = wrapper_names[i].as_str();
        let ghost x = wn[i as int];
        assert(x == w@);
        if !contains_str(&helpers, w) && !contains_str(&wrappers, w) {
            insert_sorted(&mut wrappers, crate::copy_string(&wrapper_names[i]));
        }
        proof {
            let pre = wn.take(i as int);
            let post = wn.take(i + 1);
            assert(post =~= pre.push(x));
            assert forall|k: Seq<char>| #![trigger views(wrappers@).contains(k)]
                views(wrappers@).contains(k) <==> (post.contains(k) && !hv.contains(k)) by {
                if post.contains(k) && k != x {
                    let j = choose|j: int| 0 <= j < post.len() && post[j] == k;
                    assert(pre[j] == k);
                }
                if pre.contains(k) {
                    let j = choose|j: int| 0 <= j < pre.len() && pre[j] == k;
                    assert(post[j] == k);
                }
                assert(post[i as int] == x);
            }
        }
        i += 1;
    }
    assert(wn.take(wrapper_names@.len() as int) =~= wn);
    let ghost wv = views(wrappers@);
    // Synthetic imports, last first.
    let ghost syn = global.view_of().synthetic;
    let synthetic = global.synthetic_imports();
    let mut r: Vec<String> = Vec::new();
    let mut k: usize = synthetic.len();
    assert(views(r@) =~= Seq::<Seq<char>>::empty());
    assert(syn.take(syn.len() as int) =~= syn);
    while k > 0
        invariant
            k <= synthetic@.len(),
            syn == synthetic@.map_values(|e: (String, Import)| (e.0@, import_view(e.1))),
            views(r@) + synthetic_imports_rev(syn.take(k as int)) == synthetic_imports_rev(syn),
        decreases k,
    {
        let e = &synthetic[k - 1];
        let ghost rest = syn.take(k as int);
        assert(rest.drop_last() =~= syn.take(k - 1));
        assert(rest.last() == syn[k - 1]);
        let ghost prev = views(r@);
        r.push(format_import_stmt(e.1.specifier.as_str(), e.0.as_str(), e.1.source.as_str()));
        assert(views(r@) =~= prev.push(import_stmt_spec(rest.last().1.1, rest.last().0, rest.last().1.0)));
        assert(views(r@) + synthetic_imports_rev(syn.take(k - 1)) =~= prev + synthetic_imports_rev(rest));
        k -= 1;
    }
    assert(syn.take(0) =~= Seq::<(Seq<char>, ImportView)>::empty());
    assert(views(r@) =~= synthetic_imports_rev(syn));
    let ghost base = views(r@);
    // The wrappers, then the helpers.
    let mut j: usize = 0;
    while j < wrappers.len()
        invariant
            j <= wrappers@.len(),
            wv == views(wrappers@),
            distinct_keys(marker_fn_sources@),
            views(r@) == base + wrapper_imports(wv, marker_fn_sources@, core_module@).take(j as int),
        decreases wrappers@.len() - j,
    {
        let src = find_wrapper_source(marker_fn_sources, core_module, wrappers[j].as_str());
        let ghost prev = views(r@);
        r.push(format_import_stmt(wrappers[j].as_str(), wrappers[j].as_str(), src.as_str()));
        assert(views(r@) =~= prev.push(wrapper_imports(wv, marker_fn_sources@, core_module@)[j as int]));
        assert(wrapper_imports(wv, marker_fn_sources@, core_module@).take(j + 1) =~= wrapper_imports(
            wv,
            marker_fn_sources@,
            core_module@,
        ).take(j as int).push(wrapper_imports(wv, marker_fn_sources@, core_module@)[j as int]));
        j += 1;
    }
    assert(wrapper_imports(wv, marker_fn_sources@, core_module@).take(wv.len() as int) =~= wrapper_imports(
        wv,
        marker_fn_sources@,
        core_module@,
    ));
    let ghost base2 = views(r@);
    let mut h: usize = 0;
    while h < helpers.len()
        invariant
            h <= helpers@.len(),
            hv == views(helpers@),
            views(r@) == base2 + plain_imports(hv, core_module@).take(h as int),
        decreases helpers@.len() - h,
    {
        let ghost prev = views(r@);
        r.push(format_import_stmt(helpers[h].as_str(), helpers[h].as_str(), core_module));
        assert(views(r@) =~= prev.push(plain_imports(hv, core_module@)[h as int]));
        assert(plain_imports(hv, core_module@).take(h + 1) =~= plain_imports(hv, core_module@).take(
            h as int,
        ).push(plain_imports(hv, core_module@)[h as int]));
        h += 1;
    }
    assert(plain_imports(hv, core_module@).take(hv.len() as int) =~= plain_imports(hv, core_module@));
    assert(views(r@) =~= synthetic_imports_rev(syn) + wrapper_imports(wv, marker_fn_sources@, core_module@)
        + plain_imports(hv, core_module@));
    r
}

/// `const {name} = {rhs};` for each root-level hoisted constant, in order.
pub open spec fn root_const_lines(items: Seq<HoistedConst>) -> Seq<Seq<char>>
    decreases items.len(),
{
    if items.len() == 0 {
        Seq::empty()
    } else {
        let prev = root_const_lines(items.drop_last());
        let c = items.last();
        if c.is_root_level {
            prev.push("const "@ + c.name@ + " = "@ + c.rhs_code@ + ";"@)
        } else {
            prev
        }
    }
}

/// The statements placed after the root module's imports: outside Lib mode,
/// when there is a root-level hoisted constant or a registration call, the
/// root-level constants' declarations in order, then the registration calls;
/// nothing otherwise.
pub open spec fn root_hoisted_spec(items: Seq<HoistedConst>, ref_assignments: Seq<Seq<char>>, mode: EmitMode) -> Seq<
    Seq<char>,
> {
    let has_root = exists|i: int| 0 <= i < items.len() && #[trigger] items[i].is_root_level;
    if (has_root || ref_assignments.len() > 0) && mode != EmitMode::Lib {
        root_const_lines(items) + ref_assignments
    } else {
        Seq::empty()
    }
}

/// The statements the transformed root module gains after its imports (see
/// `root_hoisted_spec`).
pub fn root_hoisted_statements(
    extra_top_items: &Vec<HoistedConst>,
    ref_assignments: &Vec<String>,
    mode: EmitMode,
) -> (r: Vec<String>)
    ensures
        views(r@) == root_hoisted_spec(extra_top_items@, views(ref_assignments@), mode),
{
    let ghost items = extra_top_items@;
    let mut lines: Vec<String> = Vec::new();
    let mut has_root = false;
    let mut i: usize = 0;
    assert(root_const_lines(items.take(0)) =~= Seq::<Seq<char>>::empty());
    assert(views(lines@) =~= Seq::<Seq<char>>::empty());
    while i < extra_top_items.len()
        invariant
            i <= items.len(),
            items == extra_top_items@,
            views(lines@) == root_const_lines(items.take(i as int)),
            has_root == exists|k: int| 0 <= k < i && #[trigger] items[k].is_root_level,
        decreases items.len() - i,
    {
        let c = &extra_top_items[i];
        assert(items.take(i + 1).drop_last() =~= items.take(i as int));
        assert(items.take(i + 1).last() == items[i as int]);
        if c.is_root_level {
            let mut line = crate::text::concat3("const ", c.name.as_str(), " = ");
            line.append(c.rhs_code.as_str());
            line.append(";");
            let ghost prev = views(lines@);
            let ghost lv = line@;
            lines.push(line);
            assert(views(lines@) =~= prev.push(lv));
            has_root = true;
        }
        i += 1;
    }
    assert(items.take(items.len() as int) =~= items);
    let lib = match mode {
        EmitMode::Lib => true,
        _ => false,
    };
    if (has_root || ref_assignments.len() > 0) && !lib {
        let mut j: usize = 0;
        let ghost base = views(lines@);
        while j < ref_assignments.len()
            invariant
                j <= ref_assignments@.len(),
                views(lines@) == base + views(ref_assignments@).take(j as int),
            decreases ref_assignments@.len() - j,
        {
            let ghost prev = views(lines@);
            lines.push(crate::copy_string(&ref_assignments[j]));
            assert(views(lines@) =~= prev.push(ref_assignments@[j as int]@));
            assert(views(ref_assignments@).take(j + 1) =~= views(ref_assignments@).take(j as int).push(
                ref_assignments@[j as int]@,
            ));
            j += 1;
        }
        assert(views(ref_assignments@).take(ref_assignments@.len() as int) =~= views(ref_assignments@));
        lines
    } else {
        Vec::new()
    }
}

/// A named import specifier of the root module is removed: its local or
/// imported name is a marker function (or the `qsegment` function) in
/// `strip_names`, or an import consumed by the transform.
pub open spec fn strips_import(
    local: Seq<char>,
    imported: Seq<char>,
    strip_names: Seq<Seq<char>>,
    consumed: Seq<Seq<char>>,
) -> bool {
    strip_names.contains(local) || strip_names.contains(imported) || consumed.contains(local)
        || consumed.contains(imported)
}

/// Whether a named import specifier of the root module is removed (see
/// `strips_import`).
pub fn strips_marker_import(
    local: &str,
    imported: &str,
    strip_names: &Vec<String>,
    consumed: &Vec<String>,
) -> (r: bool)
    ensures
        r == strips_import(local@, imported@, views(strip_names@), views(consumed@)),
{
    contains_str(strip_names, local) || contains_str(strip_names, imported) || contains_str(
        consumed,
        local,
    ) || contains_str(consumed, imported)
}

// ---------------------------------------------------------------------------
// What replaces a marker call
// ---------------------------------------------------------------------------

/// What the transform does at a marker call that becomes a segment.
#[derive(Debug)]
pub struct QrlSite {
    /// The module-scope constant `q_{symbol}` to add, unless a constant of
    /// that symbol was added already: its name and right-hand side.
    pub hoisted: Option<(String, String)>,
    /// The registration call `q_{symbol}.s(body);` (Hoist strategy).
    pub registration: Option<String>,
    /// The code that replaces the call; `None` under the Inline strategy,
    /// where the call keeps its function and gains the symbol name (and the
    /// captures array) as further arguments.
    pub replacement: Option<String>,
    /// The core-module helper the root must import for it.
    pub helper: String,
}

/// `q_{symbol}`, or `q_{symbol}.w([cap, ...])` when there are captures.
pub open spec fn qrl_ref(symbol: Seq<char>, captures: Seq<Seq<char>>) -> Seq<char> {
    if captures.len() > 0 {
        "q_"@ + symbol + ".w(["@ + join_comma(captures) + "])"@
    } else {
        "q_"@ + symbol
    }
}

/// The marker call's plan, by strategy: Hoist (outside Lib mode) hoists a
/// `_noopQrl` and registers the body with `.s()`, wrapping the reference in the
/// marker's QRL wrapper; Inline (or Hoist in Lib mode, or Lib mode) keeps the
/// call; any other strategy hoists `qrl(() => import("./{canonical}"), "sym")`
/// and replaces a bare `$` call by the reference, any other by the wrapper
/// call (marked pure for `componentQrl`). Dev and HMR modes use the `DEV`
/// helpers.
pub open spec fn qrl_site_spec(
    strategy: EntryStrategy,
    mode: EmitMode,
    explicit_extensions: bool,
    extension: Seq<char>,
    symbol: Seq<char>,
    canonical: Seq<char>,
    ctx_name: Seq<char>,
    wrapper_name: Seq<char>,
    captures: Seq<Seq<char>>,
    fn_body: Option<Seq<char>>,
    already_hoisted: bool,
    r: QrlSite,
) -> bool {
    let dev = mode == EmitMode::Dev || mode == EmitMode::Hmr;
    let ident = "q_"@ + symbol;
    let hoist = strategy == EntryStrategy::Hoist && mode != EmitMode::Lib;
    let rhs_hoist = "/*#__PURE__*/ "@ + (if dev { "_noopQrlDEV"@ } else { "_noopQrl"@ }) + "(\""@ + symbol
        + "\")"@;
    let path = if explicit_extensions {
        "./"@ + canonical + "."@ + extension
    } else {
        "./"@ + canonical
    };
    let rhs_segment = "/*#__PURE__*/ "@ + (if dev { "qrlDEV"@ } else { "qrl"@ }) + "(()=>import(\""@ + path
        + "\"), \""@ + symbol + "\")"@;
    if hoist {
        &&& r.hoisted matches Some(h) ==> (h.0@ == ident && h.1@ == rhs_hoist)
        &&& r.hoisted is Some <==> !already_hoisted
        &&& match fn_body {
            Some(b) => r.registration matches Some(s) && s@ == ident + ".s("@ + b + ");"@,
            None => r.registration is None,
        }
        &&& r.replacement matches Some(x) && x@ == wrapper_name + "("@ + qrl_ref(symbol, captures) + ")"@
        &&& r.helper@ == (if dev { "_noopQrlDEV"@ } else { "_noopQrl"@ })
    } else if inline_mode(strategy, mode) {
        &&& r.hoisted is None
        &&& r.registration is None
        &&& r.replacement is None
        &&& r.helper@ == (if dev { "inlinedQrlDEV"@ } else { "inlinedQrl"@ })
    } else {
        &&& r.hoisted matches Some(h) ==> (h.0@ == ident && h.1@ == rhs_segment)
        &&& r.hoisted is Some <==> !already_hoisted
        &&& r.registration is None
        &&& r.replacement matches Some(x) && x@ == (if ctx_name == "$"@ {
            qrl_ref(symbol, captures)
        } else {
            (if wrapper_name == "componentQrl"@ { "/*#__PURE__*/ "@ } else { Seq::empty() })
                + wrapper_name + "("@ + qrl_ref(symbol, captures) + ")"@
        })
        &&& r.helper@ == (if dev { "qrlDEV"@ } else { "qrl"@ })
    }
}

pub(crate) fn comma_join(parts: &Vec<String>) -> (r: String)
    ensures
        r@ == join_comma(views(parts@)),
{
    let ghost names = views(parts@);
    let mut body = String::new();
    let mut i: usize = 0;
    assert(names.take(0) =~= Seq::<Seq<char>>::empty());
    while i < parts.len()
        invariant
            i <= parts@.len(),
            names == views(parts@),
            body@ == join_comma(names.take(i as int)),
        decreases parts@.len() - i,
    {
        assert(names.take(i + 1).drop_last() =~= names.take(i as int));
        assert(names.take(i + 1).last() == parts@[i as int]@);
        if i > 0 {
            body.append(", ");
        }
        body.append(parts[i].as_str());
        proof {
            reveal_strlit(", ");
            if i == 0 {
                assert(body@ =~= join_comma(names.take(1)));
            } else {
                assert(body@ =~= join_comma(names.take(i + 1)));
            }
        }
        i += 1;
    }
    assert(names.take(parts@.len() as int) =~= names);
    body
}

pub(crate) fn qrl_ref_text(symbol: &str, captures: &Vec<String>) -> (r: String)
    ensures
        r@ == qrl_ref(symbol@, views(captures@)),
{
    let mut r = crate::text::concat2("q_", symbol);
    if captures.len() > 0 {
        r.append(".w([");
        let caps = comma_join(captures);
        r.append(caps.as_str());
        r.append("])");
    }
    r
}

/// The plan for a marker call that becomes a segment (see `qrl_site_spec`):
/// `wrapper_name` is the marker's QRL wrapper, `fn_body` the source of its
/// first argument, and `already_hoisted` whether a constant of this symbol
/// was hoisted before.
pub fn qrl_site(
    strategy: EntryStrategy,
    mode: EmitMode,
    explicit_extensions: bool,
    extension: &str,
    symbol: &str,
    canonical: &str,
    ctx_name: &str,
    wrapper_name: &str,
    captures: &Vec<String>,
    fn_body: Option<&str>,
    already_hoisted: bool,
) -> (r: QrlSite)
    ensures
        qrl_site_spec(
            strategy,
            mode,
            explicit_extensions,
            extension@,
            symbol@,
            canonical@,
            ctx_name@,
            wrapper_name@,
            views(captures@),
            crate::hash::opt_view(fn_body),
            already_hoisted,
            r,
        ),
{
    let dev = match mode {
        EmitMode::Dev | EmitMode::Hmr => true,
        _ => false,
    };
    let lib = match mode {
        EmitMode::Lib => true,
        _ => false,
    };
    let hoist_strategy = match strategy {
        EntryStrategy::Hoist => true,
        _ => false,
    };
    let ident = crate::text::concat2("q_", symbol);
    let reference = qrl_ref_text(symbol, captures);
    if hoist_strategy && !lib {
        let noop = if dev { "_noopQrlDEV" } else { "_noopQrl" };
        let hoisted = if already_hoisted {
            None
        } else {
            let mut rhs = crate::text::concat3("/*#__PURE__*/ ", noop, "(\"");
            rhs.append(symbol);
            rhs.append("\")");
            Some((crate::copy_string(&ident), rhs))
        };
        let registration = match fn_body {
            Some(b) => {
                let mut s = crate::copy_string(&ident);
                s.append(".s(");
                s.append(b);
                s.append(");");
                Some(s)
            },
            None => None,
        };
        let mut replacement = crate::text::concat2(wrapper_name, "(");
        replacement.append(reference.as_str());
        replacement.append(")");
        return QrlSite { hoisted, registration, replacement: Some(replacement), helper: String::from_str(noop) };
    }
    if is_inline_mode(strategy, mode) {
        let helper = if dev { "inlinedQrlDEV" } else { "inlinedQrl" };
        return QrlSite { hoisted: None, registration: None, replacement: None, helper: String::from_str(helper) };
    }
    let qrl_name = if dev { "qrlDEV" } else { "qrl" };
    let hoisted = if already_hoisted {
        None
    } else {
        let mut path = crate::text::concat2("./", canonical);
        if explicit_extensions {
            path.append(".");
            path.append(extension);
        }
        let mut rhs = crate::text::concat3("/*#__PURE__*/ ", qrl_name, "(()=>import(\"");
        rhs.append(path.as_str());
        rhs.append("\"), \"");
        rhs.append(symbol);
        rhs.append("\")");
        Some((crate::copy_string(&ident), rhs))
    };
    let replacement = if crate::text::str_eq(ctx_name, "$") {
        reference
    } else {
        let mut x = if crate::text::str_eq(wrapper_name, "componentQrl") {
            crate::text::concat2("/*#__PURE__*/ ", wrapper_name)
        } else {
            String::from_str(wrapper_name)
        };
        x.append("(");
        x.append(reference.as_str());
        x.append(")");
        x
    };
    proof {
        reveal_strlit("$");
        reveal_strlit("componentQrl");
        reveal_strlit("");
    }
    QrlSite { hoisted, registration: None, replacement: Some(replacement), helper: String::from_str(qrl_name) }
}

} // verus!
