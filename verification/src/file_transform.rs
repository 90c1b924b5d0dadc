//! The per-file transform around its tree stages: the path decomposition that
//! comes first, and, from what the tree stages yield (the root module's code,
//! the extracted segment records, the hoisted constants and the module index),
//! the root module and one module per segment that leaves its parent.

use vstd::prelude::*;

use crate::code_move::{inject_use_hmr, inject_use_hmr_spec, views};
use crate::collector::GlobalCollect;
use crate::item_order::HoistedConst;
use crate::module_output::{
    analysis_of, char_boundary_at, is_char_boundary, is_component_hmr, output_path_spec,
    root_module_of, segment_module_of, segment_order_spec, segment_path_spec, with_use_hmr,
    SegmentRecord,
};
use crate::segment_code::{emit_segment, oxc_reprint};
use crate::segment_module::{module_inputs_check, module_inputs_ok, module_text_is, new_module, NewModuleCtx};
use crate::source_path::{
    after_last, output_extension_of, path_file_name, path_file_stem, path_join, rel_dir_of, PathData,
    PathError, SourcePath,
};
use crate::text::concat3;
use crate::types::{Diagnostic, EmitMode, TransformCodeOptions, TransformModule, TransformModuleInput, TransformOutput};
use crate::{copy_string, opt_string_view};

verus! {

/// What the tree stages of a file's transform yield once its source parsed:
/// the source type, the root module's printed code and map, the segments
/// extracted from it (in extraction order), the constants hoisted out of the
/// root, the root's index of imports and exports, and the diagnostics of the
/// parse and the transform.
pub struct TreeOutput {
    pub is_type_script: bool,
    pub is_jsx: bool,
    pub root_code: String,
    pub root_map: Option<String>,
    pub segments: Vec<SegmentRecord>,
    pub extra_top_items: Vec<HoistedConst>,
    pub collect: GlobalCollect,
    pub diagnostics: Vec<Diagnostic>,
}

/// What emitting a segment module makes of `raw`: oxc's reprint, with a map
/// named after `filename` when source maps are on, or `raw` with no map when
/// the parser gives up.
pub open spec fn emitted(raw: Seq<char>, filename: Seq<char>, source_maps: bool) -> (Seq<char>, Option<Seq<char>>) {
    match oxc_reprint(raw, if source_maps { Some(filename) } else { None }) {
        Some((c, m)) => (c, m),
        None => (raw, None),
    }
}

/// The module of a stripped segment: its name exported as `null`.
pub open spec fn noop_module_code(name: Seq<char>) -> Seq<char> {
    "export const "@ + name + " = null;"@
}

/// The segment gets `_useHmr` injected: a `component$` body in HMR mode.
pub open spec fn hmr_segment(config: TransformCodeOptions, rec: SegmentRecord) -> bool {
    config.mode == EmitMode::Hmr && rec.ctx_name@ == "component$"@
}

/// The import of `_useHmr` from the core module.
pub open spec fn hmr_import_spec(core_module: Seq<char>) -> Seq<char> {
    "import { _useHmr } from \""@ + core_module + "\";"@
}

/// The expression a segment module is built from: the segment's code, with
/// `_useHmr` injected for an HMR component.
pub open spec fn module_expr(config: TransformCodeOptions, rec: SegmentRecord, expr: Seq<char>, dev: Seq<char>) -> Seq<char> {
    if hmr_segment(config, rec) {
        inject_use_hmr_spec(expr, dev)
    } else {
        expr
    }
}

/// The names a segment module imports from: the record's, with `_useHmr` for
/// an HMR component.
pub open spec fn module_locals(config: TransformCodeOptions, rec: SegmentRecord) -> Seq<Seq<char>> {
    let l = views(rec.local_idents@);
    if hmr_segment(config, rec) && !l.contains("_useHmr"@) {
        l.push("_useHmr"@)
    } else {
        l
    }
}

/// The extra import statements of a segment module.
pub open spec fn module_synthetic(config: TransformCodeOptions, rec: SegmentRecord) -> Seq<Seq<char>> {
    if hmr_segment(config, rec) {
        seq![hmr_import_spec(config.core_module@)]
    } else {
        Seq::empty()
    }
}

/// `m` is the output module of segment `rec` under `rel_dir`, with `extension`,
/// holding `code` and `map`.
pub open spec fn module_is_segment(
    m: TransformModule,
    rec: SegmentRecord,
    rel_dir: Seq<char>,
    extension: Seq<char>,
    code: Seq<char>,
    map: Option<Seq<char>>,
) -> bool {
    &&& m.path@ == segment_path_spec(rel_dir, rec.canonical_filename@, extension)
    &&& m.is_entry == rec.entry is None
    &&& m.code@ == code
    &&& opt_string_view(m.map) == map
    &&& m.segment matches Some(a) && analysis_of(rec, rel_dir, extension, a)
    &&& m.orig_path is None
    &&& m.order == segment_order_spec(rec.hash@)
}

/// `m` is the output module of the segment `rec` of the file decomposed as
/// `d` (extension `ext`, dev path `dev`, tree output `t`): a stripped segment
/// exports `null`; any other is the segment module built by `new_module`;
/// either is emitted through oxc.
pub open spec fn segment_output_is(
    config: TransformCodeOptions,
    d: PathData,
    ext: Seq<char>,
    dev: Seq<char>,
    t: TreeOutput,
    rec: SegmentRecord,
    m: TransformModule,
) -> bool {
    match rec.expr {
        None => {
            let e = emitted(noop_module_code(rec.name@), rec.canonical_filename@, config.source_maps);
            module_is_segment(m, rec, d.rel_dir@, ext, e.0, e.1)
        },
        Some(x) => exists|raw: Seq<char>|
            {
                &&& #[trigger] module_text_is(
                    module_expr(config, rec, x@, dev),
                    rec.name@,
                    d.file_stem@,
                    module_locals(config, rec),
                    views(rec.scoped_idents@),
                    t.collect.view_of(),
                    config.core_module@,
                    config.explicit_extensions,
                    t.extra_top_items@,
                    views(rec.migrated_root_vars@),
                    module_synthetic(config, rec),
                    raw,
                )
                &&& module_is_segment(
                    m,
                    rec,
                    d.rel_dir@,
                    ext,
                    emitted(raw, rec.canonical_filename@, config.source_maps).0,
                    emitted(raw, rec.canonical_filename@, config.source_maps).1,
                )
            },
    }
}

/// `ms` are the output modules of the segments `segs` that leave their parent
/// (the inline ones stay in it), in order.
pub open spec fn segment_outputs_are(
    config: TransformCodeOptions,
    d: PathData,
    ext: Seq<char>,
    dev: Seq<char>,
    t: TreeOutput,
    segs: Seq<SegmentRecord>,
    ms: Seq<TransformModule>,
) -> bool
    decreases segs.len(),
{
    if segs.len() == 0 {
        ms.len() == 0
    } else if segs.last().is_inline {
        segment_outputs_are(config, d, ext, dev, t, segs.drop_last(), ms)
    } else {
        &&& ms.len() > 0
        &&& segment_output_is(config, d, ext, dev, t, segs.last(), ms.last())
        &&& segment_outputs_are(config, d, ext, dev, t, segs.drop_last(), ms.drop_last())
    }
}

/// The module of `rec` can be built: its span offsets and the first 8 bytes
/// of its hash are in range, and its expression suits the scanners (see
/// `module_inputs_ok`). On the other inputs the reference transform panics or
/// never finishes.
pub open spec fn record_buildable(config: TransformCodeOptions, dev: Seq<char>, rec: SegmentRecord) -> bool {
    rec.is_inline || {
        &&& rec.span.0 < u32::MAX
        &&& rec.span.1 < u32::MAX
        &&& is_char_boundary(rec.hash@, 8)
        &&& match rec.expr {
            None => true,
            Some(x) => {
                &&& x@.len() < 0x8000_0000
                &&& module_inputs_ok(module_expr(config, rec, x@, dev), views(rec.scoped_idents@))
            },
        }
    }
}

/// Every segment module of `t` can be built.
pub open spec fn tree_buildable(config: TransformCodeOptions, dev: Seq<char>, t: TreeOutput) -> bool {
    forall|i: int| 0 <= i < t.segments@.len() ==> #[trigger] record_buildable(config, dev, t.segments@[i])
}

/// The extension of the output modules of `input_path`.
pub open spec fn file_extension_spec(config: TransformCodeOptions, input_path: Seq<char>) -> Seq<char> {
    output_extension_of(after_last(input_path, '.'), config.transpile_ts, config.transpile_jsx)
}

/// The dev path handed to `_useHmr`: the given one, or the file's absolute path.
pub open spec fn dev_path_spec(input: TransformModuleInput, d: PathData) -> Seq<char> {
    match input.dev_path {
        Some(p) => p@,
        None => path_join(d.abs_dir@, d.file_name@),
    }
}

/// `d` is the decomposition of `path` under `src_dir`.
pub open spec fn decomposes(src_dir: Seq<char>, path: Seq<char>, d: PathData) -> bool {
    &&& path_file_name(path) == Some(d.file_name@)
    &&& path_file_stem(path) == Some(d.file_stem@)
    &&& d.rel_dir@ == rel_dir_of(path)
    &&& d.abs_dir@ == path_join(src_dir, rel_dir_of(path))
}

/// `r` is the output of `input` from the tree output `t`: first the root
/// module (renamed when a segment was extracted), then the modules of the
/// segments that leave it; the diagnostics and source-type flags of `t`.
pub open spec fn file_output_is(
    config: TransformCodeOptions,
    input: TransformModuleInput,
    d: PathData,
    t: TreeOutput,
    r: TransformOutput,
) -> bool {
    let root = r.modules@[0];
    &&& r.modules@.len() >= 1
    &&& root.path@ == output_path_spec(
        d,
        input.path@,
        t.segments@.len() > 0,
        config.preserve_filenames,
        config.transpile_ts,
        config.transpile_jsx,
    )
    &&& !root.is_entry
    &&& root.code@ == t.root_code@
    &&& opt_string_view(root.map) == opt_string_view(t.root_map)
    &&& root.segment is None
    &&& opt_string_view(root.orig_path) == Some(input.path@)
    &&& root.order == crate::module_output::default_hash_of(root.path@)
    &&& segment_outputs_are(
        config,
        d,
        file_extension_spec(config, input.path@),
        dev_path_spec(input, d),
        t,
        t.segments@,
        r.modules@.drop_first(),
    )
    &&& r.diagnostics@ == t.diagnostics@
    &&& r.is_type_script == t.is_type_script
    &&& r.is_jsx == t.is_jsx
}

/// An output with no modules, the given diagnostics and no source-type flags.
pub open spec fn bare_output(r: TransformOutput, diagnostics: Seq<Diagnostic>) -> bool {
    &&& r.modules@.len() == 0
    &&& r.diagnostics@ == diagnostics
    &&& !r.is_type_script
    &&& !r.is_jsx
}

fn copy_strings(v: &Vec<String>) -> (r: Vec<String>)
    ensures
        views(r@) == views(v@),
{
    let mut r: Vec<String> = Vec::new();
    let mut i: usize = 0;
    while i < v.len()
        invariant
            i <= v@.len(),
            views(r@) == views(v@).take(i as int),
        decreases v@.len() - i,
    {
        let ghost prev = views(r@);
        r.push(copy_string(&v[i]));
        assert(views(r@) =~= prev.push(v@[i as int]@));
        assert(views(v@).take(i + 1) =~= views(v@).take(i as int).push(v@[i as int]@));
        i += 1;
    }
    assert(views(v@).take(v@.len() as int) =~= views(v@));
    r
}

fn record_check(config: &TransformCodeOptions, dev: &str, rec: &SegmentRecord) -> (r: bool)
    ensures
        r == record_buildable(*config, dev@, *rec),
{
    if rec.is_inline {
        return true;
    }
    if rec.span.0 == u32::MAX || rec.span.1 == u32::MAX || !char_boundary_at(rec.hash.as_str(), 8) {
        return false;
    }
    match &rec.expr {
        None => true,
        Some(x) => {
            if x.as_str().unicode_len() >= 0x8000_0000 {
                return false;
            }
            let hmr = is_component_hmr(config.mode, rec.ctx_name.as_str());
            let expr = if hmr {
                inject_use_hmr(x.as_str(), dev)
            } else {
                copy_string(x)
            };
            proof {
                reveal_strlit("component$");
            }
            assert(expr@ == module_expr(*config, *rec, x@, dev@));
            module_inputs_check(expr.as_str(), rec.scoped_idents.as_slice())
        },
    }
}

/// Whether every segment module of `t` can be built.
pub fn tree_check(config: &TransformCodeOptions, dev: &str, t: &TreeOutput) -> (r: bool)
    ensures
        r == tree_buildable(*config, dev@, *t),
{
    let mut i: usize = 0;
    while i < t.segments.len()
        invariant
            i <= t.segments@.len(),
            forall|k: int| 0 <= k < i ==> #[trigger] record_buildable(*config, dev@, t.segments@[k]),
        decreases t.segments@.len() - i,
    {
        if !record_check(config, dev, &t.segments[i]) {
            return false;
        }
        i += 1;
    }
    true
}

fn segment_module_for(
    config: &TransformCodeOptions,
    d: &PathData,
    ext: &str,
    dev: &str,
    t: &TreeOutput,
    rec: &SegmentRecord,
) -> (m: TransformModule)
    requires
        !rec.is_inline,
        record_buildable(*config, dev@, *rec),
    ensures
        segment_output_is(*config, *d, ext@, dev@, *t, *rec, m),
{
    match &rec.expr {
        None => {
            let code = concat3("export const ", rec.name.as_str(), " = null;");
            let (c, map) = emit_segment(code.as_str(), rec.canonical_filename.as_str(), config.source_maps);
            segment_module_of(rec, d.rel_dir.as_str(), ext, c, map)
        },
        Some(x) => {
            let hmr = is_component_hmr(config.mode, rec.ctx_name.as_str());
            proof {
                reveal_strlit("component$");
                reveal_strlit("_useHmr");
            }
            let expr = if hmr {
                inject_use_hmr(x.as_str(), dev)
            } else {
                copy_string(x)
            };
            let locals = if hmr {
                with_use_hmr(&rec.local_idents)
            } else {
                copy_strings(&rec.local_idents)
            };
            let mut synthetic: Vec<String> = Vec::new();
            if hmr {
                synthetic.push(concat3("import { _useHmr } from \"", config.core_module.as_str(), "\";"));
            }
            assert(views(synthetic@) =~= module_synthetic(*config, *rec));
            assert(views(locals@) =~= module_locals(*config, *rec));
            let ctx = NewModuleCtx {
                expr: expr.as_str(),
                name: rec.name.as_str(),
                file_stem: d.file_stem.as_str(),
                local_idents: locals.as_slice(),
                scoped_idents: rec.scoped_idents.as_slice(),
                global: &t.collect,
                core_module: config.core_module.as_str(),
                explicit_extensions: config.explicit_extensions,
                extra_top_items: &t.extra_top_items,
                migrated_root_vars: rec.migrated_root_vars.as_slice(),
                synthetic_imports: synthetic.as_slice(),
            };
            let text = new_module(&ctx);
            let (c, map) = emit_segment(text.as_str(), rec.canonical_filename.as_str(), config.source_maps);
            let m = segment_module_of(rec, d.rel_dir.as_str(), ext, c, map);
            assert(module_text_is(
                module_expr(*config, *rec, x@, dev@),
                rec.name@,
                d.file_stem@,
                module_locals(*config, *rec),
                views(rec.scoped_idents@),
                t.collect.view_of(),
                config.core_module@,
                config.explicit_extensions,
                t.extra_top_items@,
                views(rec.migrated_root_vars@),
                module_synthetic(*config, *rec),
                text@,
            ));
            m
        },
    }
}

/// The output modules of the segments of `t` that leave their parent, in order.
pub fn segment_modules(
    config: &TransformCodeOptions,
    d: &PathData,
    ext: &str,
    dev: &str,
    t: &TreeOutput,
) -> (r: Vec<TransformModule>)
    requires
        tree_buildable(*config, dev@, *t),
    ensures
        segment_outputs_are(*config, *d, ext@, dev@, *t, t.segments@, r@),
{
    let ghost segs = t.segments@;
    let mut r: Vec<TransformModule> = Vec::new();
    let mut i: usize = 0;
    assert(segs.take(0) =~= Seq::<SegmentRecord>::empty());
    while i < t.segments.len()
        invariant
            i <= segs.len(),
            segs == t.segments@,
            tree_buildable(*config, dev@, *t),
            segment_outputs_are(*config, *d, ext@, dev@, *t, segs.take(i as int), r@),
        decreases segs.len() - i,
    {
        let rec = &t.segments[i];
        assert(segs.take(i + 1).drop_last() =~= segs.take(i as int));
        assert(segs.take(i + 1).last() == segs[i as int]);
        if !rec.is_inline {
            assert(record_buildable(*config, dev@, segs[i as int]));
            let m = segment_module_for(config, d, ext, dev, t, rec);
            let ghost prev = r@;
            r.push(m);
            assert(r@.drop_last() =~= prev);
        }
        i += 1;
    }
    assert(segs.take(segs.len() as int) =~= segs);
    r
}

/// The output of `input` from its decomposition `d` and what the tree stages
/// yielded: the bare diagnostics when the source did not parse, else the root
/// module followed by the segment modules.
pub fn file_output(
    config: &TransformCodeOptions,
    input: &TransformModuleInput,
    d: &PathData,
    tree: Result<TreeOutput, Vec<Diagnostic>>,
) -> (r: Option<TransformOutput>)
    ensures
        match tree {
            Err(diags) => (r matches Some(o) && bare_output(o, diags@)),
            Ok(t) => {
                &&& r is Some <==> tree_buildable(*config, dev_path_spec(*input, *d), t)
                &&& r matches Some(o) ==> file_output_is(*config, *input, *d, t, o)
            },
        },
{
    match tree {
        Err(diags) => Some(TransformOutput {
            modules: Vec::new(),
            diagnostics: diags,
            is_type_script: false,
            is_jsx: false,
        }),
        Ok(t) => {
            let dev = match &input.dev_path {
                Some(p) => copy_string(p),
                None => crate::source_path::join_paths(d.abs_dir.as_str(), d.file_name.as_str()),
            };
            assert(dev@ == dev_path_spec(*input, *d));
            if !tree_check(config, dev.as_str(), &t) {
                return None;
            }
            let ext = SourcePath(input.path.as_str()).output_extension(config.transpile_ts, config.transpile_jsx);
            let segs = segment_modules(config, d, ext, dev.as_str(), &t);
            let did_transform = t.segments.len() > 0;
            let root = root_module_of(
                d,
                input.path.as_str(),
                did_transform,
                config,
                copy_string(&t.root_code),
                crate::copy_opt_string(&t.root_map),
            );
            let mut modules: Vec<TransformModule> = Vec::new();
            modules.push(root);
            let ghost segv = segs@;
            let mut segs = segs;
            modules.append(&mut segs);
            assert(modules@.drop_first() =~= segv);
            let o = TransformOutput {
                modules,
                diagnostics: t.diagnostics,
                is_type_script: t.is_type_script,
                is_jsx: t.is_jsx,
            };
            Some(o)
        },
    }
}

/// `r` is what transforming `input` gives when the tree stages are
/// `tree_stages`: the empty output for a path without a file name; else, for
/// the decomposition `d` and some result of the tree stages on it, the bare
/// diagnostics of a failed parse, or the output built from the tree output
/// (`None` exactly when one of its segment modules cannot be built).
pub open spec fn transform_code_result<F>(
    config: TransformCodeOptions,
    input: TransformModuleInput,
    tree_stages: F,
    r: Option<TransformOutput>,
) -> bool where
    F: Fn(&TransformCodeOptions, &TransformModuleInput, &PathData) -> Result<TreeOutput, Vec<Diagnostic>>,
 {
    &&& path_file_name(input.path@) is None ==> (r matches Some(o) && bare_output(o, Seq::empty()))
    &&& path_file_name(input.path@) is Some ==> exists|d: PathData, tree: Result<TreeOutput, Vec<Diagnostic>>|
        {
            &&& decomposes(config.src_dir@, input.path@, d)
            &&& #[trigger] tree_stages.ensures((&config, &input, &d), tree)
            &&& match tree {
                Err(diags) => (r matches Some(o) && bare_output(o, diags@)),
                Ok(t) => {
                    &&& r is Some <==> tree_buildable(config, dev_path_spec(input, d), t)
                    &&& r matches Some(o) ==> file_output_is(config, input, d, t, o)
                },
            }
        }
}

/// Transform one file: decompose its path (a file without a name gives the
/// empty output), run the tree stages on it, and build the output from what
/// they yield. `None` when the tree output holds a segment whose module cannot
/// be built (see `record_buildable`).
pub fn transform_code<F>(config: &TransformCodeOptions, input: &TransformModuleInput, tree_stages: &F) -> (r:
    Option<TransformOutput>) where
    F: Fn(&TransformCodeOptions, &TransformModuleInput, &PathData) -> Result<TreeOutput, Vec<Diagnostic>>,

    requires
        forall|o: &TransformCodeOptions, i: &TransformModuleInput, d: &PathData| #[trigger]
            tree_stages.requires((o, i, d)),
    ensures
        transform_code_result(*config, *input, *tree_stages, r),
{
    match SourcePath(input.path.as_str()).path_data(config.src_dir.as_str()) {
        Err(_) => {
            let o = TransformOutput::default();
            assert(o.diagnostics@ =~= Seq::<Diagnostic>::empty());
            Some(o)
        },
        Ok(d) => {
            let tree = tree_stages(config, input, &d);
            file_output(config, input, &d, tree)
        },
    }
}

} // verus!
