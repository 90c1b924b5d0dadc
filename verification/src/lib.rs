//! A Qwik optimizer core: segment naming and hashing, entry strategies,
//! source path handling, the index of a module's imports and exports, the
//! migration of root declarations into segments, the string-level building
//! blocks of segment modules, the decisions of the `$`-call extraction (what
//! each marker call becomes, and what the root module gains), the per-file
//! output, and the decisions of the JSX lowering (constant props, signal
//! wrapping).
//!
//! Where a step reads the syntax tree, it takes the parts it reads as plain
//! values (`ModuleStmt`, `RootStmt`, `MainStmt`, `JsExpr`, `JsxAttr`,
//! `InlinedExpr`, ...).

use vstd::prelude::*;

pub mod text;
pub mod types;
pub mod errors;
pub mod entry_strategy;
pub mod source_path;
pub mod hash;
pub mod code_move;
pub mod emit;
pub mod clean_side_effects;
pub mod add_side_effect;
pub mod module_output;
pub mod jsx_events;
pub mod dependency_analysis;
pub mod item_order;
pub mod captures;
pub mod segment_code;
pub mod filter_exports;
pub mod inlined_fn;
pub mod jsx_transform;
pub mod is_const;
pub mod collector;
pub mod migration;
pub mod segment_rules;
pub mod segment_module;
pub mod file_transform;
pub mod extraction;
pub mod jsx_lowering;

use crate::code_move::views;
use crate::file_transform::{transform_code_result, TreeOutput};
use crate::source_path::PathData;
use crate::types::{
    Diagnostic, TransformCodeOptions, TransformModule, TransformModuleInput, TransformModulesOptions,
    TransformOutput,
};

verus! {

broadcast use vstd::seq_lib::group_to_multiset_ensures, vstd::multiset::group_multiset_axioms;

/// The core module imported when the options name none.
pub open spec fn default_core_module() -> Seq<char> {
    "@qwik.dev/core"@
}

/// The text of an optional `String`.
pub open spec fn opt_string_view(o: Option<String>) -> Option<Seq<char>> {
    match o {
        Some(s) => Some(s@),
        None => None,
    }
}

/// The texts of an optional list of strings, an absent list reading as empty.
pub open spec fn list_or_empty(o: Option<Vec<String>>) -> Seq<Seq<char>> {
    match o {
        Some(v) => views(v@),
        None => Seq::empty(),
    }
}

/// `c` holds the per-file options that `config` stands for: every shared option
/// copied, the core module defaulting to `@qwik.dev/core`, absent lists read as
/// empty, and `is_server` defaulting to `true`.
pub open spec fn code_options_for(config: TransformModulesOptions, c: TransformCodeOptions) -> bool {
    &&& c.src_dir@ == config.src_dir@
    &&& opt_string_view(c.root_dir) == opt_string_view(config.root_dir)
    &&& c.source_maps == config.source_maps
    &&& c.minify == config.minify
    &&& c.transpile_ts == config.transpile_ts
    &&& c.transpile_jsx == config.transpile_jsx
    &&& c.preserve_filenames == config.preserve_filenames
    &&& c.entry_strategy == config.entry_strategy
    &&& c.explicit_extensions == config.explicit_extensions
    &&& c.mode == config.mode
    &&& opt_string_view(c.scope) == opt_string_view(config.scope)
    &&& c.core_module@ == (match config.core_module {
        Some(s) => s@,
        None => default_core_module(),
    })
    &&& views(c.strip_exports@) == list_or_empty(config.strip_exports)
    &&& views(c.strip_ctx_name@) == list_or_empty(config.strip_ctx_name)
    &&& c.strip_event_handlers == config.strip_event_handlers
    &&& views(c.reg_ctx_name@) == list_or_empty(config.reg_ctx_name)
    &&& c.is_server == (match config.is_server {
        Some(b) => b,
        None => true,
    })
}

pub(crate) fn copy_string(s: &String) -> (r: String)
    ensures
        r@ == s@,
{
    s.clone()
}

pub(crate) fn copy_opt_string(o: &Option<String>) -> (r: Option<String>)
    ensures
        opt_string_view(r) == opt_string_view(*o),
{
    match o {
        Some(s) => Some(copy_string(s)),
        None => None,
    }
}

fn copy_list_or_empty(o: &Option<Vec<String>>) -> (r: Vec<String>)
    ensures
        views(r@) == list_or_empty(*o),
{
    let mut r: Vec<String> = Vec::new();
    match o {
        Some(v) => {
            let mut i: usize = 0;
            while i < v.len()
                invariant
                    i <= v@.len(),
                    r@.len() == i,
                    views(r@) == views(v@).take(i as int),
                decreases v@.len() - i,
            {
                let s = copy_string(&v[i]);
                let ghost before = r@;
                r.push(s);
                assert(r@ == before.push(s));
                assert forall|k: int| 0 <= k < r@.len() implies #[trigger] views(r@)[k] == views(
                    v@,
                ).take(i + 1)[k] by {
                    if k < i {
                        assert(r@[k] == before[k]);
                        assert(views(before)[k] == views(v@).take(i as int)[k]);
                    }
                }
                assert(views(r@) =~= views(v@).take(i + 1));
                i += 1;
            }
            assert(views(v@).take(v@.len() as int) =~= views(v@));
        },
        None => {
            assert(views(r@) =~= Seq::<Seq<char>>::empty());
        },
    }
    r
}

/// The per-file options for `config`.
pub fn transform_code_options(config: &TransformModulesOptions) -> (r: TransformCodeOptions)
    ensures
        code_options_for(*config, r),
{
    let core_module = match &config.core_module {
        Some(s) => copy_string(s),
        None => {
            proof {
                reveal_strlit("@qwik.dev/core");
            }
            String::from_str("@qwik.dev/core")
        },
    };
    let is_server = match config.is_server {
        Some(b) => b,
        None => true,
    };
    TransformCodeOptions {
        src_dir: copy_string(&config.src_dir),
        root_dir: copy_opt_string(&config.root_dir),
        source_maps: config.source_maps,
        minify: config.minify,
        transpile_ts: config.transpile_ts,
        transpile_jsx: config.transpile_jsx,
        preserve_filenames: config.preserve_filenames,
        entry_strategy: config.entry_strategy,
        explicit_extensions: config.explicit_extensions,
        mode: config.mode,
        scope: copy_opt_string(&config.scope),
        core_module,
        strip_exports: copy_list_or_empty(&config.strip_exports),
        strip_ctx_name: copy_list_or_empty(&config.strip_ctx_name),
        strip_event_handlers: config.strip_event_handlers,
        reg_ctx_name: copy_list_or_empty(&config.reg_ctx_name),
        is_server,
    }
}

/// Modules listed by non-decreasing `order`.
pub open spec fn sorted_by_order(s: Seq<TransformModule>) -> bool {
    forall|i: int, j: int| 0 <= i <= j < s.len() ==> #[trigger] s[i].order <= #[trigger] s[j].order
}

/// The modules of `modules`, reordered by non-decreasing `order`.
pub fn sort_modules_by_order(modules: Vec<TransformModule>) -> (r: Vec<TransformModule>)
    ensures
        r@.to_multiset() == modules@.to_multiset(),
        sorted_by_order(r@),
{
    let ghost orig = modules@;
    let mut rest = modules;
    let mut sorted: Vec<TransformModule> = Vec::new();
    while rest.len() > 0
        invariant
            sorted@.to_multiset().add(rest@.to_multiset()) == orig.to_multiset(),
            sorted_by_order(sorted@),
        decreases rest@.len(),
    {
        let ghost rest_before = rest@;
        let m = rest.pop().unwrap();
        assert(rest_before == rest@.push(m));
        let mut j: usize = 0;
        while j < sorted.len() && sorted[j].order < m.order
            invariant
                j <= sorted@.len(),
                forall|k: int| 0 <= k < j ==> #[trigger] sorted@[k].order < m.order,
            decreases sorted@.len() - j,
        {
            j += 1;
        }
        let ghost before = sorted@;
        sorted.insert(j, m);
        assert(sorted@ =~= before.subrange(0, j as int).push(m) + before.subrange(
            j as int,
            before.len() as int,
        ));
        assert forall|a: int, b: int| 0 <= a <= b < sorted@.len() implies #[trigger] sorted@[a].order
            <= #[trigger] sorted@[b].order by {
            if b < j {
                assert(sorted@[a] == before[a]);
                assert(sorted@[b] == before[b]);
            } else if b == j {
                if a < j {
                    assert(sorted@[a] == before[a]);
                }
            } else {
                assert(sorted@[b] == before[b - 1]);
                if a < j {
                    assert(sorted@[a] == before[a]);
                } else if a > j {
                    assert(sorted@[a] == before[a - 1]);
                } else {
                    if j < before.len() {
                        assert(before[j as int].order >= m.order);
                        assert(before[j as int].order <= before[b - 1].order);
                    }
                }
            }
        }
        assert(sorted@.to_multiset() == before.to_multiset().insert(m));
        assert(rest_before.to_multiset() == rest@.to_multiset().insert(m));
        assert(sorted@.to_multiset().add(rest@.to_multiset()) =~= orig.to_multiset());
    }
    assert(rest@.to_multiset() =~= vstd::multiset::Multiset::empty());
    assert(sorted@.to_multiset() =~= orig.to_multiset());
    sorted
}

/// The modules of `outs`, output by output, in order.
pub open spec fn all_modules(outs: Seq<TransformOutput>) -> Seq<TransformModule>
    decreases outs.len(),
{
    if outs.len() == 0 {
        Seq::empty()
    } else {
        all_modules(outs.drop_last()) + outs.last().modules@
    }
}

/// The diagnostics of `outs`, output by output, in order.
pub open spec fn all_diagnostics(outs: Seq<TransformOutput>) -> Seq<crate::types::Diagnostic>
    decreases outs.len(),
{
    if outs.len() == 0 {
        Seq::empty()
    } else {
        all_diagnostics(outs.drop_last()) + outs.last().diagnostics@
    }
}

/// `result` is the merge of the per-file outputs `outs`: their diagnostics in
/// order, their modules sorted by `order`, and the flags of any of them.
pub open spec fn merged(outs: Seq<TransformOutput>, result: TransformOutput) -> bool {
    &&& result.modules@.to_multiset() == all_modules(outs).to_multiset()
    &&& sorted_by_order(result.modules@)
    &&& result.diagnostics@ == all_diagnostics(outs)
    &&& result.is_type_script == exists|i: int| 0 <= i < outs.len() && #[trigger] outs[i].is_type_script
    &&& result.is_jsx == exists|i: int| 0 <= i < outs.len() && #[trigger] outs[i].is_jsx
}

/// `outs` are outputs of transforming each input of `config` under `opts`.
pub open spec fn all_outputs<F>(
    config: TransformModulesOptions,
    opts: TransformCodeOptions,
    tree_stages: F,
    outs: Seq<TransformOutput>,
) -> bool where
    F: Fn(&TransformCodeOptions, &TransformModuleInput, &PathData) -> Result<TreeOutput, Vec<Diagnostic>>,
 {
    &&& outs.len() == config.input@.len()
    &&& forall|i: int|
        0 <= i < outs.len() ==> #[trigger] transform_code_result(
            opts,
            config.input@[i],
            tree_stages,
            Some(outs[i]),
        )
}

/// `result` is what transforming the inputs of `config` under `opts` gives:
/// `None` when some input's output cannot be built, else the merge of the
/// per-file outputs.
pub open spec fn modules_result<F>(
    config: TransformModulesOptions,
    opts: TransformCodeOptions,
    tree_stages: F,
    result: Option<TransformOutput>,
) -> bool where
    F: Fn(&TransformCodeOptions, &TransformModuleInput, &PathData) -> Result<TreeOutput, Vec<Diagnostic>>,
 {
    match result {
        None => exists|i: int|
            0 <= i < config.input@.len() && #[trigger] transform_code_result(
                opts,
                config.input@[i],
                tree_stages,
                None,
            ),
        Some(r) => exists|outs: Seq<TransformOutput>|
            #[trigger] all_outputs(config, opts, tree_stages, outs) && merged(outs, r),
    }
}

/// Leaving out the core module and `is_server` is the same as giving their
/// defaults (`@qwik.dev/core` and `true`): the two configurations stand for the
/// same per-file options, and allow the same results for every tree stages.
pub proof fn lemma_default_options_same<F>(
    c1: TransformModulesOptions,
    c2: TransformModulesOptions,
    opts: TransformCodeOptions,
    tree_stages: F,
    result: Option<TransformOutput>,
) where
    F: Fn(&TransformCodeOptions, &TransformModuleInput, &PathData) -> Result<TreeOutput, Vec<Diagnostic>>,

    requires
        c1.core_module is None,
        c1.is_server is None,
        c2.core_module matches Some(m) && m@ == default_core_module(),
        c2.is_server == Some(true),
        c2.src_dir == c1.src_dir,
        c2.root_dir == c1.root_dir,
        c2.input == c1.input,
        c2.source_maps == c1.source_maps,
        c2.minify == c1.minify,
        c2.transpile_ts == c1.transpile_ts,
        c2.transpile_jsx == c1.transpile_jsx,
        c2.preserve_filenames == c1.preserve_filenames,
        c2.entry_strategy == c1.entry_strategy,
        c2.explicit_extensions == c1.explicit_extensions,
        c2.mode == c1.mode,
        c2.scope == c1.scope,
        c2.strip_exports == c1.strip_exports,
        c2.strip_ctx_name == c1.strip_ctx_name,
        c2.strip_event_handlers == c1.strip_event_handlers,
        c2.reg_ctx_name == c1.reg_ctx_name,
    ensures
        code_options_for(c1, opts) <==> code_options_for(c2, opts),
        modules_result(c1, opts, tree_stages, result) <==> modules_result(c2, opts, tree_stages, result),
{
    assert(c1.input@ == c2.input@);
    assert forall|outs: Seq<TransformOutput>|
        all_outputs(c1, opts, tree_stages, outs) <==> #[trigger] all_outputs(c2, opts, tree_stages, outs) by {
    }
    match result {
        None => {
            if modules_result(c1, opts, tree_stages, result) {
                let i = choose|i: int|
                    0 <= i < c1.input@.len() && #[trigger] transform_code_result(opts, c1.input@[i], tree_stages, None);
                assert(transform_code_result(opts, c2.input@[i], tree_stages, None));
            }
            if modules_result(c2, opts, tree_stages, result) {
                let i = choose|i: int|
                    0 <= i < c2.input@.len() && #[trigger] transform_code_result(opts, c2.input@[i], tree_stages, None);
                assert(transform_code_result(opts, c1.input@[i], tree_stages, None));
            }
        },
        Some(r) => {
            if modules_result(c1, opts, tree_stages, result) {
                let outs = choose|outs: Seq<TransformOutput>|
                    #[trigger] all_outputs(c1, opts, tree_stages, outs) && merged(outs, r);
                assert(all_outputs(c2, opts, tree_stages, outs));
            }
            if modules_result(c2, opts, tree_stages, result) {
                let outs = choose|outs: Seq<TransformOutput>|
                    #[trigger] all_outputs(c2, opts, tree_stages, outs) && merged(outs, r);
                assert(all_outputs(c1, opts, tree_stages, outs));
            }
        },
    }
}


/// Transform every input under the per-file options of `config`, with
/// `tree_stages` as the stages that parse a file and transform its syntax
/// tree, merge the outputs in input order, and sort the modules by `order`.
/// `None` when the output of some file cannot be built (see
/// `file_transform::transform_code`).
pub fn transform_modules<F>(config: TransformModulesOptions, tree_stages: F) -> (result: Option<
    TransformOutput,
>) where
    F: Fn(&TransformCodeOptions, &TransformModuleInput, &PathData) -> Result<TreeOutput, Vec<Diagnostic>>,

    requires
        forall|o: &TransformCodeOptions, i: &TransformModuleInput, d: &PathData| #[trigger]
            tree_stages.requires((o, i, d)),
    ensures
        exists|opts: TransformCodeOptions|
            #![trigger code_options_for(config, opts)]
            code_options_for(config, opts) && modules_result(config, opts, tree_stages, result),
{
    let code_config = transform_code_options(&config);
    let mut result = TransformOutput::default();
    let ghost mut outs: Seq<TransformOutput> = Seq::empty();
    let mut i: usize = 0;
    while i < config.input.len()
        invariant
            i <= config.input@.len(),
            outs.len() == i,
            code_options_for(config, code_config),
            forall|o: &TransformCodeOptions, inp: &TransformModuleInput, d: &PathData| #[trigger]
                tree_stages.requires((o, inp, d)),
            forall|k: int|
                0 <= k < outs.len() ==> #[trigger] transform_code_result(
                    code_config,
                    config.input@[k],
                    tree_stages,
                    Some(outs[k]),
                ),
            result.modules@ == all_modules(outs),
            result.diagnostics@ == all_diagnostics(outs),
            result.is_type_script == exists|k: int| 0 <= k < outs.len() && #[trigger] outs[k].is_type_script,
            result.is_jsx == exists|k: int| 0 <= k < outs.len() && #[trigger] outs[k].is_jsx,
        decreases config.input@.len() - i,
    {
        let file = crate::file_transform::transform_code(&code_config, &config.input[i], &tree_stages);
        let mut file_output = match file {
            Some(o) => o,
            None => {
                assert(transform_code_result(code_config, config.input@[i as int], tree_stages, None));
                assert(modules_result(config, code_config, tree_stages, None));
                return None;
            },
        };
        let ghost prev = outs;
        proof {
            outs = outs.push(file_output);
            assert(outs.drop_last() == prev);
            assert(outs.last() == file_output);
            if file_output.is_type_script {
                assert(outs[i as int].is_type_script);
            }
            if file_output.is_jsx {
                assert(outs[i as int].is_jsx);
            }
            assert forall|k: int| 0 <= k < prev.len() implies #[trigger] outs[k] == prev[k] by {}
        }
        result.append(&mut file_output);
        i += 1;
    }
    let modules = sort_modules_by_order(result.modules);
    let result = TransformOutput {
        modules,
        diagnostics: result.diagnostics,
        is_type_script: result.is_type_script,
        is_jsx: result.is_jsx,
    };
    assert(merged(outs, result));
    let r = Some(result);
    proof {
        assert(all_outputs(config, code_config, tree_stages, outs));
        assert(merged(outs, r->0));
        assert(modules_result(config, code_config, tree_stages, r));
    }
    r
}

} // verus!
