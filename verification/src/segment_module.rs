//! Assembly of a segment module: the import statements a segment needs, and
//! the complete module text built from the extracted expression, its hoisted
//! QRLs, the constants it needs, its imports and its named export.

use vstd::prelude::*;

use crate::code_move::{
    captures_import_spec, create_named_export, dedup_by_sym, dedup_spec, defined_sym_spec,
    extract_defined_sym, fix_self_referential_vars, format_import_stmt, has_prefix_at,
    hoist_qrls_from_expr, hoist_qrls_spec, import_stmt_spec, named_export_spec,
    new_module_captures_import, pair_views, rewrite_lines, self_reference_rewrite_diverges,
    some_rewrite_diverges, starts_with, views, word_idents_in, word_idents_spec,
};
use crate::collector::{key_pos, specifier_matches, CollectView, GlobalCollect};
use crate::item_order::{
    collect_needed_extra_top_items, consts_named, dependency_order, kahn_done, kahn_emitted,
    needed_closed, same_const, HoistedConst, order_items_by_dependency,
};
use crate::segment_code::{oxc_initializer_shape, probe_decl, transform_function_expr, with_captures_spec};
use crate::text::{
    chars_of, concat3, contains_str, decimal, decimal_string, distinct_strings, insert_sorted,
    join_lines, join_with_newlines, lines_of, sorted_lex, str_eq, string_of, trim_bounds, trim_ws,
};

verus! {

// ---------------------------------------------------------------------------
// Import statements of a segment
// ---------------------------------------------------------------------------

/// The module specifier of the parent file: `./{stem}`, with `.js` when
/// explicit extensions are asked for.
pub open spec fn local_source(file_stem: Seq<char>, explicit_extensions: bool) -> Seq<char> {
    if explicit_extensions {
        "./"@ + file_stem + ".js"@
    } else {
        "./"@ + file_stem
    }
}

/// Where a segment imports `ident` from, as `(specifier, source)`: the import
/// bound to that local name; else the one import whose imported name it is;
/// else, when the parent exports it, the parent file; else nowhere.
pub open spec fn import_resolution(
    g: CollectView,
    ident: Seq<char>,
    file_stem: Seq<char>,
    explicit_extensions: bool,
) -> Option<(Seq<char>, Seq<char>)> {
    match key_pos(g.imports, ident) {
        Some(p) => Some((g.imports[p].1.1, g.imports[p].1.0)),
        None => {
            let m = specifier_matches(g.imports, ident);
            if m.len() == 1 {
                Some(m[0])
            } else if g.exports.contains(ident) {
                Some((ident, local_source(file_stem, explicit_extensions)))
            } else {
                None
            }
        },
    }
}

/// How often `k` occurs in `s`.
pub open spec fn occurrences(s: Seq<Seq<char>>, k: Seq<char>) -> nat
    decreases s.len(),
{
    if s.len() == 0 {
        0
    } else {
        occurrences(s.drop_last(), k) + if s.last() == k {
            1nat
        } else {
            0nat
        }
    }
}

/// The local name of the `i`-th import of `local`: `local` itself first, then
/// `_{local}_{i}`.
pub open spec fn alias_local(local: Seq<char>, i: nat) -> Seq<char> {
    if i == 0 {
        local
    } else {
        "_"@ + local + "_"@ + decimal(i)
    }
}

/// The `n` import statements of a name that the segment lists `n` times.
pub open spec fn repeated_imports(specifier: Seq<char>, local: Seq<char>, source: Seq<char>, n: nat) -> Seq<
    Seq<char>,
>
    decreases n,
{
    if n == 0 {
        Seq::empty()
    } else {
        repeated_imports(specifier, local, source, (n - 1) as nat).push(
            import_stmt_spec(specifier, alias_local(local, (n - 1) as nat), source),
        )
    }
}

/// The import statements for the sorted names `keys`. `seen` holds the
/// `(specifier, source)` pairs imported so far: a name listed once whose pair
/// was imported already is imported again as `_{name}_1`; a name listed `n`
/// times is imported `n` times, under `alias_local`.
pub open spec fn import_stmts_from(
    keys: Seq<Seq<char>>,
    idents: Seq<Seq<char>>,
    g: CollectView,
    file_stem: Seq<char>,
    explicit_extensions: bool,
    seen: Set<(Seq<char>, Seq<char>)>,
) -> Seq<Seq<char>>
    decreases keys.len(),
{
    if keys.len() == 0 {
        Seq::empty()
    } else {
        let k = keys[0];
        let rest = keys.drop_first();
        match import_resolution(g, k, file_stem, explicit_extensions) {
            None => import_stmts_from(rest, idents, g, file_stem, explicit_extensions, seen),
            Some(pair) => {
                let n = occurrences(idents, k);
                if n == 1 {
                    if seen.contains(pair) {
                        seq![import_stmt_spec(pair.0, alias_local(k, 1), pair.1)]
                            + import_stmts_from(rest, idents, g, file_stem, explicit_extensions, seen)
                    } else {
                        seq![import_stmt_spec(pair.0, k, pair.1)] + import_stmts_from(
                            rest,
                            idents,
                            g,
                            file_stem,
                            explicit_extensions,
                            seen.insert(pair),
                        )
                    }
                } else {
                    repeated_imports(pair.0, k, pair.1, n) + import_stmts_from(
                        rest,
                        idents,
                        g,
                        file_stem,
                        explicit_extensions,
                        seen.insert(pair),
                    )
                }
            },
        }
    }
}

/// `keys` are the names of `idents` that resolve to an import, each once,
/// in sorted order.
pub open spec fn resolved_keys(
    keys: Seq<Seq<char>>,
    idents: Seq<Seq<char>>,
    g: CollectView,
    file_stem: Seq<char>,
    explicit_extensions: bool,
) -> bool {
    &&& sorted_lex(keys)
    &&& distinct_strings(keys)
    &&& forall|k: Seq<char>|
        #![trigger keys.contains(k)]
        keys.contains(k) <==> (idents.contains(k) && import_resolution(
            g,
            k,
            file_stem,
            explicit_extensions,
        ) is Some)
}

/// The statements that import the segment's names, in sorted name order.
pub open spec fn generated_imports(
    idents: Seq<Seq<char>>,
    g: CollectView,
    file_stem: Seq<char>,
    explicit_extensions: bool,
    r: Seq<Seq<char>>,
) -> bool {
    exists|keys: Seq<Seq<char>>|
        #[trigger] resolved_keys(keys, idents, g, file_stem, explicit_extensions) && r
            == import_stmts_from(keys, idents, g, file_stem, explicit_extensions, Set::empty())
}

fn resolve_import(global: &GlobalCollect, ident: &str, file_stem: &str, explicit_extensions: bool) -> (r:
    Option<(String, String)>)
    ensures
        match r {
            Some(p) => import_resolution(global.view_of(), ident@, file_stem@, explicit_extensions)
                == Some((p.0@, p.1@)),
            None => import_resolution(global.view_of(), ident@, file_stem@, explicit_extensions) is None,
        },
{
    match global.get_import(ident) {
        Some(imp) => {
            return Some((crate::copy_string(&imp.specifier), crate::copy_string(&imp.source)));
        },
        None => {},
    }
    let matches = global.imports_with_specifier(ident);
    if matches.len() == 1 {
        return Some((crate::copy_string(&matches[0].0), crate::copy_string(&matches[0].1)));
    }
    if global.has_export_symbol(ident) {
        let source = if explicit_extensions {
            concat3("./", file_stem, ".js")
        } else {
            crate::text::concat2("./", file_stem)
        };
        proof {
            reveal_strlit("./");
            reveal_strlit(".js");
        }
        return Some((String::from_str(ident), source));
    }
    None
}

proof fn lemma_push_to_set<A>(s: Seq<A>, x: A)
    ensures
        s.push(x).to_set() == s.to_set().insert(x),
{
    assert forall|y: A| #[trigger] s.push(x).to_set().contains(y) <==> s.to_set().insert(x).contains(y) by {
        if s.push(x).contains(y) {
            let k = choose|k: int| 0 <= k < s.push(x).len() && s.push(x)[k] == y;
            if k < s.len() {
                assert(s[k] == y);
            }
        }
        if s.contains(y) {
            let k = choose|k: int| 0 <= k < s.len() && s[k] == y;
            assert(s.push(x)[k] == y);
        }
        if y == x {
            assert(s.push(x)[s.len() as int] == x);
        }
    }
    assert(s.push(x).to_set() =~= s.to_set().insert(x));
}

fn count_occurrences(idents: &Vec<String>, k: &str) -> (n: usize)
    ensures
        n == occurrences(views(idents@), k@),
{
    let ghost vs = views(idents@);
    let mut n: usize = 0;
    let mut i: usize = 0;
    while i < idents.len()
        invariant
            i <= idents@.len(),
            vs == views(idents@),
            n == occurrences(vs.take(i as int), k@),
            n <= i,
        decreases idents@.len() - i,
    {
        assert(vs.take(i + 1).drop_last() =~= vs.take(i as int));
        if str_eq(idents[i].as_str(), k) {
            n += 1;
        }
        i += 1;
    }
    assert(vs.take(idents@.len() as int) =~= vs);
    n
}

fn alias_name(local: &str, i: usize) -> (r: String)
    ensures
        r@ == alias_local(local@, i as nat),
{
    if i == 0 {
        return String::from_str(local);
    }
    let mut r = concat3("_", local, "_");
    let d = decimal_string(i as u64);
    r.append(d.as_str());
    proof {
        reveal_strlit("_");
    }
    r
}

fn contains_pair(v: &Vec<(String, String)>, a: &str, b: &str) -> (r: bool)
    ensures
        r == pair_views(v@).to_set().contains((a@, b@)),
{
    let mut i: usize = 0;
    while i < v.len()
        invariant
            i <= v@.len(),
            forall|j: int| 0 <= j < i ==> pair_views(v@)[j] != (a@, b@),
        decreases v@.len() - i,
    {
        if str_eq(v[i].0.as_str(), a) && str_eq(v[i].1.as_str(), b) {
            assert(pair_views(v@)[i as int] == (a@, b@));
            return true;
        }
        i += 1;
    }
    assert(!pair_views(v@).contains((a@, b@)));
    false
}

/// The import statements of a segment module for the names it uses, in sorted
/// name order: each name comes from the import bound to it, the single import
/// that imports it, or, when the parent file exports it, from the parent file.
/// Names that resolve nowhere get no statement.
pub fn generate_imports(
    combined_local_idents: &Vec<String>,
    global: &GlobalCollect,
    file_stem: &str,
    explicit_extensions: bool,
    _core_module: &str,
) -> (r: Vec<String>)
    ensures
        generated_imports(
            views(combined_local_idents@),
            global.view_of(),
            file_stem@,
            explicit_extensions,
            views(r@),
        ),
{
    let ghost idents = views(combined_local_idents@);
    let ghost g = global.view_of();
    // Pass 1: the names that resolve, sorted, each once.
    let mut keys: Vec<String> = Vec::new();
    let mut i: usize = 0;
    while i < combined_local_idents.len()
        invariant
            i <= combined_local_idents@.len(),
            idents == views(combined_local_idents@),
            g == global.view_of(),
            sorted_lex(views(keys@)),
            distinct_strings(views(keys@)),
            forall|k: Seq<char>|
                #![trigger views(keys@).contains(k)]
                views(keys@).contains(k) <==> (idents.take(i as int).contains(k)
                    && import_resolution(g, k, file_stem@, explicit_extensions) is Some),
        decreases combined_local_idents@.len() - i,
    {
        let ident = combined_local_idents[i].as_str();
        let res = resolve_import(global, ident, file_stem, explicit_extensions);
        let ghost before = views(keys@);
        let ghost x = idents[i as int];
        assert(x == ident@);
        if res.is_some() && !contains_str(&keys, ident) {
            insert_sorted(&mut keys, crate::copy_string(&combined_local_idents[i]));
        }
        proof {
            let pre = idents.take(i as int);
            let post = idents.take(i + 1);
            assert(post =~= pre.push(x));
            assert forall|k: Seq<char>| #![trigger views(keys@).contains(k)]
                views(keys@).contains(k) <==> (post.contains(k)
                    && import_resolution(g, k, file_stem@, explicit_extensions) is Some) by {
                if post.contains(k) && k != x {
                    let j = choose|j: int| 0 <= j < post.len() && post[j] == k;
                    assert(j < i);
                    assert(pre[j] == k);
                }
                if pre.contains(k) {
                    let j = choose|j: int| 0 <= j < pre.len() && pre[j] == k;
                    assert(post[j] == k);
                }
                assert(post[i as int] == x);
                if k == x {
                    assert(post.contains(k));
                }
                assert(before.contains(k) <==> (pre.contains(k) && import_resolution(g, k, file_stem@, explicit_extensions) is Some));
            }
        }
        i += 1;
    }
    assert(idents.take(combined_local_idents@.len() as int) =~= idents);
    let ghost kv = views(keys@);
    // Pass 2: one statement per resolved name (more when it is listed more often).
    let mut seen: Vec<(String, String)> = Vec::new();
    let mut result: Vec<String> = Vec::new();
    let mut j: usize = 0;
    assert(kv.skip(0) =~= kv);
    assert(views(result@) =~= Seq::<Seq<char>>::empty());
    assert(pair_views(seen@).to_set() =~= Set::<(Seq<char>, Seq<char>)>::empty());
    while j < keys.len()
        invariant
            j <= keys@.len(),
            kv == views(keys@),
            idents == views(combined_local_idents@),
            g == global.view_of(),
            views(result@) + import_stmts_from(
                kv.skip(j as int),
                idents,
                g,
                file_stem@,
                explicit_extensions,
                pair_views(seen@).to_set(),
            ) == import_stmts_from(kv, idents, g, file_stem@, explicit_extensions, Set::empty()),
        decreases keys@.len() - j,
    {
        let ghost rest_before = kv.skip(j as int);
        assert(rest_before.drop_first() =~= kv.skip(j + 1));
        assert(rest_before[0] == kv[j as int]);
        let ghost seen_before = pair_views(seen@).to_set();
        let ghost res_before = views(result@);
        let k = keys[j].as_str();
        match resolve_import(global, k, file_stem, explicit_extensions) {
            None => {},
            Some((sp, src)) => {
                let n = count_occurrences(combined_local_idents, k);
                if n == 1 {
                    if contains_pair(&seen, sp.as_str(), src.as_str()) {
                        let a = alias_name(k, 1);
                        result.push(format_import_stmt(sp.as_str(), a.as_str(), src.as_str()));
                        assert(views(result@) =~= res_before + seq![
                            import_stmt_spec(sp@, alias_local(k@, 1), src@),
                        ]);
                    } else {
                        result.push(format_import_stmt(sp.as_str(), k, src.as_str()));
                        assert(views(result@) =~= res_before + seq![import_stmt_spec(sp@, k@, src@)]);
                        let ghost pv = pair_views(seen@);
                        let ghost e = (sp@, src@);
                        seen.push((sp, src));
                        assert(pair_views(seen@) =~= pv.push(e));
                        proof {
                            lemma_push_to_set(pv, e);
                        }
                    }
                } else {
                    let mut t: usize = 0;
                    assert(views(result@) =~= res_before + repeated_imports(sp@, k@, src@, 0));
                    while t < n
                        invariant
                            t <= n,
                            views(result@) == res_before + repeated_imports(sp@, k@, src@, t as nat),
                        decreases n - t,
                    {
                        let a = alias_name(k, t);
                        let ghost prev = views(result@);
                        result.push(format_import_stmt(sp.as_str(), a.as_str(), src.as_str()));
                        assert(views(result@) =~= prev.push(import_stmt_spec(sp@, alias_local(k@, t as nat), src@)));
                        assert(repeated_imports(sp@, k@, src@, (t + 1) as nat) == repeated_imports(sp@, k@, src@, t as nat).push(import_stmt_spec(sp@, alias_local(k@, t as nat), src@)));
                        t += 1;
                    }
                    if !contains_pair(&seen, sp.as_str(), src.as_str()) {
                        let ghost pv = pair_views(seen@);
                        let ghost e = (sp@, src@);
                        seen.push((sp, src));
                        assert(pair_views(seen@) =~= pv.push(e));
                        proof {
                            lemma_push_to_set(pv, e);
                        }
                    } else {
                        assert(seen_before.insert((sp@, src@)) =~= seen_before);
                    }
                }
            },
        }
        j += 1;
    }
    assert(kv.skip(keys@.len() as int) =~= Seq::<Seq<char>>::empty());
    assert(views(result@) =~= views(result@) + Seq::<Seq<char>>::empty());
    assert(resolved_keys(kv, idents, g, file_stem@, explicit_extensions));
    result
}

// ---------------------------------------------------------------------------
// The segment module
// ---------------------------------------------------------------------------

/// What a segment module is built from.
pub struct NewModuleCtx<'a> {
    /// The extracted expression.
    pub expr: &'a str,
    /// The segment's symbol name, under which the module exports it.
    pub name: &'a str,
    /// The parent file's stem, for imports of its exports.
    pub file_stem: &'a str,
    /// The identifiers the segment uses that are not captured.
    pub local_idents: &'a [String],
    /// The captured identifiers.
    pub scoped_idents: &'a [String],
    /// The parent module's index.
    pub global: &'a GlobalCollect,
    /// The module that `_captures` comes from.
    pub core_module: &'a str,
    /// Whether imports of the parent file name its `.js` extension.
    pub explicit_extensions: bool,
    /// The constants hoisted out of the parent module.
    pub extra_top_items: &'a Vec<HoistedConst>,
    /// Declarations moved from the parent module into this segment.
    pub migrated_root_vars: &'a [String],
    /// Further import statements to place before the others.
    pub synthetic_imports: &'a [String],
}

/// The expression with the captured identifiers read at its start (unchanged
/// when nothing is captured).
pub open spec fn segment_expr_spec(expr: Seq<char>, scoped: Seq<Seq<char>>) -> Seq<char> {
    if scoped.len() == 0 {
        expr
    } else {
        with_captures_spec(expr, scoped, oxc_initializer_shape(probe_decl(expr)))
    }
}

/// The expression after hoisting its QRLs and rewriting self-referential `const`s.
pub open spec fn final_expr_spec(expr: Seq<char>, scoped: Seq<Seq<char>>) -> Seq<char> {
    join_lines(rewrite_lines(lines_of(hoist_qrls_spec(segment_expr_spec(expr, scoped)).0)))
}

/// The QRLs hoisted out of the expression, as `(symbol, code)`.
pub open spec fn hoisted_spec(expr: Seq<char>, scoped: Seq<Seq<char>>) -> Seq<(Seq<char>, Seq<char>)> {
    hoist_qrls_spec(segment_expr_spec(expr, scoped)).1
}

/// Each hoisted symbol followed by the identifiers of its code.
pub open spec fn hoist_seed(hoisted: Seq<(Seq<char>, Seq<char>)>) -> Seq<Seq<char>>
    decreases hoisted.len(),
{
    if hoisted.len() == 0 {
        Seq::empty()
    } else {
        hoist_seed(hoisted.drop_last()) + seq![hoisted.last().0] + word_idents_spec(hoisted.last().1)
    }
}

/// `acc` with each name of `xs` added last unless already present.
pub open spec fn append_new(acc: Seq<Seq<char>>, xs: Seq<Seq<char>>) -> Seq<Seq<char>>
    decreases xs.len(),
{
    if xs.len() == 0 {
        acc
    } else {
        let a = append_new(acc, xs.drop_last());
        if a.contains(xs.last()) {
            a
        } else {
            a.push(xs.last())
        }
    }
}

/// Names and right-hand sides of constants.
pub open spec fn const_views(cs: Seq<HoistedConst>) -> Seq<(Seq<char>, Seq<char>)> {
    cs.map_values(|c: HoistedConst| (c.name@, c.rhs_code@))
}

/// The identifiers of all right-hand sides, in order.
pub open spec fn rhs_idents(cs: Seq<(Seq<char>, Seq<char>)>) -> Seq<Seq<char>>
    decreases cs.len(),
{
    if cs.len() == 0 {
        Seq::empty()
    } else {
        rhs_idents(cs.drop_last()) + word_idents_spec(cs.last().1)
    }
}

/// The first parts of pairs.
pub open spec fn firsts(ps: Seq<(Seq<char>, Seq<char>)>) -> Seq<Seq<char>> {
    ps.map_values(|p: (Seq<char>, Seq<char>)| p.0)
}

/// The second parts of pairs.
pub open spec fn seconds(ps: Seq<(Seq<char>, Seq<char>)>) -> Seq<Seq<char>> {
    ps.map_values(|p: (Seq<char>, Seq<char>)| p.1)
}

/// The symbols that statements define, in order.
pub open spec fn sym_list(stmts: Seq<Seq<char>>) -> Seq<Seq<char>>
    decreases stmts.len(),
{
    if stmts.len() == 0 {
        Seq::empty()
    } else {
        let prev = sym_list(stmts.drop_last());
        match defined_sym_spec(stmts.last()) {
            Some(sym) => prev.push(sym),
            None => prev,
        }
    }
}

/// A right-hand side that is an import statement.
pub open spec fn is_import_text(rhs: Seq<char>) -> bool {
    starts_with(rhs, "import "@) || starts_with(rhs, "import{"@)
}

/// The (trimmed) right-hand sides of the constants not named in `syms` that
/// are import statements.
pub open spec fn extra_imports_of(cs: Seq<(Seq<char>, Seq<char>)>, syms: Seq<Seq<char>>) -> Seq<Seq<char>>
    decreases cs.len(),
{
    if cs.len() == 0 {
        Seq::empty()
    } else {
        let prev = extra_imports_of(cs.drop_last(), syms);
        let rhs = trim_ws(cs.last().1);
        if !syms.contains(cs.last().0) && is_import_text(rhs) {
            prev.push(rhs)
        } else {
            prev
        }
    }
}

/// `const {name} = {rhs};` for the constants not named in `syms` whose
/// (trimmed) right-hand side is not an import, as `(name, code)`.
pub open spec fn extra_defs_of(cs: Seq<(Seq<char>, Seq<char>)>, syms: Seq<Seq<char>>) -> Seq<
    (Seq<char>, Seq<char>),
>
    decreases cs.len(),
{
    if cs.len() == 0 {
        Seq::empty()
    } else {
        let prev = extra_defs_of(cs.drop_last(), syms);
        let n = cs.last().0;
        let rhs = trim_ws(cs.last().1);
        if !syms.contains(n) && !is_import_text(rhs) {
            prev.push((n, "const "@ + n + " = "@ + rhs + ";"@))
        } else {
            prev
        }
    }
}

/// `var {sym} = {code};` for each hoisted QRL, as `(sym, code)`.
pub open spec fn var_items(hoisted: Seq<(Seq<char>, Seq<char>)>) -> Seq<(Seq<char>, Seq<char>)> {
    hoisted.map_values(
        |p: (Seq<char>, Seq<char>)| (p.0, "var "@ + p.0 + " = "@ + p.1 + ";"@),
    )
}

/// The trimmed, non-empty moved declarations.
pub open spec fn migrated_parts(ms: Seq<Seq<char>>) -> Seq<Seq<char>>
    decreases ms.len(),
{
    if ms.len() == 0 {
        Seq::empty()
    } else {
        let prev = migrated_parts(ms.drop_last());
        if trim_ws(ms.last()).len() > 0 {
            prev.push(trim_ws(ms.last()))
        } else {
            prev
        }
    }
}

/// The `_captures` import when anything is captured.
pub open spec fn header_spec(scoped: Seq<Seq<char>>, core_module: Seq<char>) -> Seq<Seq<char>> {
    if scoped.len() > 0 {
        seq![captures_import_spec(core_module)]
    } else {
        Seq::empty()
    }
}

/// The module text built from the steps' results, for a segment with
/// expression `expr`, symbol `name`, parent stem `file_stem`, uncaptured names
/// `local`, captured names `scoped`, parent index `g`, core module `core`,
/// extension flag `explicit`, hoisted constants `consts`, moved declarations
/// `migrated` and synthetic imports `synthetic`: `needed` is the least set of
/// names closed over the constants that the seed names, `imports` the
/// generated import statements, and `sorted` the dependency order of the
/// `var` and `const` items (`items` as strings).
pub open spec fn segment_module_holds(
    expr: Seq<char>,
    name: Seq<char>,
    file_stem: Seq<char>,
    local: Seq<Seq<char>>,
    scoped: Seq<Seq<char>>,
    g: CollectView,
    core: Seq<char>,
    explicit: bool,
    consts: Seq<HoistedConst>,
    migrated: Seq<Seq<char>>,
    synthetic: Seq<Seq<char>>,
    needed: Set<Seq<char>>,
    imports: Seq<Seq<char>>,
    items: Seq<(String, String)>,
    sorted: Seq<(Seq<char>, Seq<char>)>,
    r: Seq<char>,
) -> bool {
    let fin = final_expr_spec(expr, scoped);
    let hoisted = hoisted_spec(expr, scoped);
    let seed = local + scoped + word_idents_spec(fin) + hoist_seed(hoisted);
    let extras = const_views(consts_named(consts, needed));
    let combined = append_new(append_new(local, firsts(hoisted)), rhs_idents(extras));
    let header = header_spec(scoped, core);
    let syms = sym_list(imports) + sym_list(header);
    let all = header + imports + synthetic + extra_imports_of(extras, syms) + seconds(sorted);
    &&& needed_closed(consts, seed, needed)
    &&& forall|s: Set<Seq<char>>| needed_closed(consts, seed, s) ==> needed.subset_of(s)
    &&& generated_imports(combined, g, file_stem, explicit, imports)
    &&& pair_views(items) == var_items(hoisted) + extra_defs_of(extras, syms)
    &&& dependency_order(items, kahn_done(items), kahn_emitted(items), sorted)
    &&& r == join_lines(
        dedup_spec(all, Set::empty()) + migrated_parts(migrated) + seq![named_export_spec(name, fin)],
    )
}

/// `r` is the module text of the segment so described: some results of the
/// steps satisfy `segment_module_holds` (they are determined by the inputs).
pub open spec fn module_text_is(
    expr: Seq<char>,
    name: Seq<char>,
    file_stem: Seq<char>,
    local: Seq<Seq<char>>,
    scoped: Seq<Seq<char>>,
    g: CollectView,
    core: Seq<char>,
    explicit: bool,
    consts: Seq<HoistedConst>,
    migrated: Seq<Seq<char>>,
    synthetic: Seq<Seq<char>>,
    r: Seq<char>,
) -> bool {
    exists|needed: Set<Seq<char>>, imports: Seq<Seq<char>>, items: Seq<(String, String)>, sorted: Seq<
        (Seq<char>, Seq<char>),
    >|
        #[trigger] segment_module_holds(
            expr,
            name,
            file_stem,
            local,
            scoped,
            g,
            core,
            explicit,
            consts,
            migrated,
            synthetic,
            needed,
            imports,
            items,
            sorted,
            r,
        )
}

/// `r` is the module text of the segment that `ctx` describes.
pub open spec fn is_segment_module(ctx: NewModuleCtx, r: Seq<char>) -> bool {
    module_text_is(
        ctx.expr@,
        ctx.name@,
        ctx.file_stem@,
        views(ctx.local_idents@),
        views(ctx.scoped_idents@),
        ctx.global.view_of(),
        ctx.core_module@,
        ctx.explicit_extensions,
        ctx.extra_top_items@,
        views(ctx.migrated_root_vars@),
        views(ctx.synthetic_imports@),
        r,
    )
}

/// The inputs on which a module can be built from `expr` with captures
/// `scoped` (see `new_module_inputs_ok`).
pub open spec fn module_inputs_ok(expr: Seq<char>, scoped: Seq<Seq<char>>) -> bool {
    &&& expr.len() < 0x8000_0000
    &&& segment_expr_spec(expr, scoped).len() < 0x8000_0000
    &&& !some_rewrite_diverges(hoist_qrls_spec(segment_expr_spec(expr, scoped)).0)
}

/// The inputs on which the module can be built: the expression and its form
/// with the captures read fit the scanners' counters, and no line of the
/// hoisted expression is a `const` with an empty name on which the
/// self-reference rewrite would never end.
pub open spec fn new_module_inputs_ok(ctx: NewModuleCtx) -> bool {
    module_inputs_ok(ctx.expr@, views(ctx.scoped_idents@))
}

pub(crate) fn extend_strings(dst: &mut Vec<String>, src: &[String])
    ensures
        views(final(dst)@) == views(old(dst)@) + views(src@),
{
    let ghost start = views(dst@);
    let mut i: usize = 0;
    while i < src.len()
        invariant
            i <= src@.len(),
            views(dst@) == start + views(src@).take(i as int),
        decreases src@.len() - i,
    {
        let ghost prev = views(dst@);
        dst.push(crate::copy_string(&src[i]));
        assert(views(dst@) =~= prev.push(src@[i as int]@));
        assert(views(src@).take(i + 1) =~= views(src@).take(i as int).push(src@[i as int]@));
        i += 1;
    }
    assert(views(src@).take(src@.len() as int) =~= views(src@));
}

pub(crate) fn append_all_new(acc: &mut Vec<String>, xs: &Vec<String>)
    ensures
        views(final(acc)@) == append_new(views(old(acc)@), views(xs@)),
{
    let ghost start = views(acc@);
    let ghost xv = views(xs@);
    let mut i: usize = 0;
    assert(xv.take(0) =~= Seq::<Seq<char>>::empty());
    while i < xs.len()
        invariant
            i <= xs@.len(),
            xv == views(xs@),
            views(acc@) == append_new(start, xv.take(i as int)),
        decreases xs@.len() - i,
    {
        assert(xv.take(i + 1).drop_last() =~= xv.take(i as int));
        assert(xv.take(i + 1).last() == xs@[i as int]@);
        if !contains_str(acc, xs[i].as_str()) {
            let ghost prev = views(acc@);
            acc.push(crate::copy_string(&xs[i]));
            assert(views(acc@) =~= prev.push(xs@[i as int]@));
        }
        i += 1;
    }
    assert(xv.take(xs@.len() as int) =~= xv);
}

fn build_seed(local: &[String], scoped: &[String], fin: &str, hoisted: &Vec<(String, String)>) -> (r: Vec<String>)
    ensures
        views(r@) == views(local@) + views(scoped@) + word_idents_spec(fin@) + hoist_seed(pair_views(hoisted@)),
{
    let mut r: Vec<String> = Vec::new();
    assert(views(r@) =~= Seq::<Seq<char>>::empty());
    extend_strings(&mut r, local);
    extend_strings(&mut r, scoped);
    let w = word_idents_in(fin);
    extend_strings(&mut r, w.as_slice());
    let ghost base = views(r@);
    let ghost hv = pair_views(hoisted@);
    let mut i: usize = 0;
    assert(hoist_seed(hv.take(0)) =~= Seq::<Seq<char>>::empty());
    assert(views(r@) =~= base + hoist_seed(hv.take(0)));
    while i < hoisted.len()
        invariant
            i <= hoisted@.len(),
            hv == pair_views(hoisted@),
            views(r@) == base + hoist_seed(hv.take(i as int)),
        decreases hoisted@.len() - i,
    {
        assert(hv.take(i + 1).drop_last() =~= hv.take(i as int));
        assert(hv.take(i + 1).last() == hv[i as int]);
        let ghost prev = views(r@);
        r.push(crate::copy_string(&hoisted[i].0));
        assert(views(r@) =~= prev + seq![hv[i as int].0]);
        let ids = word_idents_in(hoisted[i].1.as_str());
        extend_strings(&mut r, ids.as_slice());
        i += 1;
    }
    assert(hv.take(hoisted@.len() as int) =~= hv);
    r
}

fn firsts_of(ps: &Vec<(String, String)>) -> (r: Vec<String>)
    ensures
        views(r@) == firsts(pair_views(ps@)),
{
    let mut r: Vec<String> = Vec::new();
    let mut i: usize = 0;
    while i < ps.len()
        invariant
            i <= ps@.len(),
            views(r@) == firsts(pair_views(ps@)).take(i as int),
        decreases ps@.len() - i,
    {
        let ghost prev = views(r@);
        r.push(crate::copy_string(&ps[i].0));
        assert(views(r@) =~= prev.push(ps@[i as int].0@));
        assert(firsts(pair_views(ps@)).take(i + 1) =~= firsts(pair_views(ps@)).take(i as int).push(
            ps@[i as int].0@,
        ));
        i += 1;
    }
    assert(firsts(pair_views(ps@)).take(ps@.len() as int) =~= firsts(pair_views(ps@)));
    r
}

fn rhs_idents_of(cs: &Vec<HoistedConst>) -> (r: Vec<String>)
    ensures
        views(r@) == rhs_idents(const_views(cs@)),
{
    let ghost cv = const_views(cs@);
    let mut r: Vec<String> = Vec::new();
    let mut i: usize = 0;
    assert(rhs_idents(cv.take(0)) =~= Seq::<Seq<char>>::empty());
    assert(views(r@) =~= Seq::<Seq<char>>::empty());
    while i < cs.len()
        invariant
            i <= cs@.len(),
            cv == const_views(cs@),
            views(r@) == rhs_idents(cv.take(i as int)),
        decreases cs@.len() - i,
    {
        assert(cv.take(i + 1).drop_last() =~= cv.take(i as int));
        assert(cv.take(i + 1).last() == cv[i as int]);
        let ids = word_idents_in(cs[i].rhs_code.as_str());
        extend_strings(&mut r, ids.as_slice());
        i += 1;
    }
    assert(cv.take(cs@.len() as int) =~= cv);
    r
}

fn sym_list_of(stmts: &Vec<String>) -> (r: Vec<String>)
    ensures
        views(r@) == sym_list(views(stmts@)),
{
    let ghost sv = views(stmts@);
    let mut r: Vec<String> = Vec::new();
    let mut i: usize = 0;
    assert(sym_list(sv.take(0)) =~= Seq::<Seq<char>>::empty());
    assert(views(r@) =~= Seq::<Seq<char>>::empty());
    while i < stmts.len()
        invariant
            i <= stmts@.len(),
            sv == views(stmts@),
            views(r@) == sym_list(sv.take(i as int)),
        decreases stmts@.len() - i,
    {
        assert(sv.take(i + 1).drop_last() =~= sv.take(i as int));
        assert(sv.take(i + 1).last() == stmts@[i as int]@);
        match extract_defined_sym(stmts[i].as_str()) {
            Some(sym) => {
                let ghost prev = views(r@);
                let ghost symv = sym@;
                r.push(sym);
                assert(views(r@) =~= prev.push(symv));
            },
            None => {},
        }
        i += 1;
    }
    assert(sv.take(stmts@.len() as int) =~= sv);
    r
}

fn trim_string(s: &str) -> (r: String)
    ensures
        r@ == trim_ws(s@),
{
    let v = chars_of(s);
    assert(v@.subrange(0, v@.len() as int) =~= v@);
    let (lo, hi) = trim_bounds(&v, 0, v.len());
    string_of(&v, lo, hi)
}

fn is_import_code(rhs: &str) -> (r: bool)
    ensures
        r == is_import_text(rhs@),
{
    let v = chars_of(rhs);
    assert(v@.subrange(0, v@.len() as int) =~= v@);
    has_prefix_at(&v, 0, v.len(), "import ") || has_prefix_at(&v, 0, v.len(), "import{")
}

fn split_extras(cs: &Vec<HoistedConst>, syms: &Vec<String>) -> (r: (Vec<String>, Vec<(String, String)>))
    ensures
        views(r.0@) == extra_imports_of(const_views(cs@), views(syms@)),
        pair_views(r.1@) == extra_defs_of(const_views(cs@), views(syms@)),
{
    let ghost cv = const_views(cs@);
    let ghost sv = views(syms@);
    let mut imps: Vec<String> = Vec::new();
    let mut defs: Vec<(String, String)> = Vec::new();
    let mut i: usize = 0;
    assert(extra_imports_of(cv.take(0), sv) =~= Seq::<Seq<char>>::empty());
    assert(extra_defs_of(cv.take(0), sv) =~= Seq::<(Seq<char>, Seq<char>)>::empty());
    assert(views(imps@) =~= Seq::<Seq<char>>::empty());
    assert(pair_views(defs@) =~= Seq::<(Seq<char>, Seq<char>)>::empty());
    while i < cs.len()
        invariant
            i <= cs@.len(),
            cv == const_views(cs@),
            sv == views(syms@),
            views(imps@) == extra_imports_of(cv.take(i as int), sv),
            pair_views(defs@) == extra_defs_of(cv.take(i as int), sv),
        decreases cs@.len() - i,
    {
        assert(cv.take(i + 1).drop_last() =~= cv.take(i as int));
        assert(cv.take(i + 1).last() == cv[i as int]);
        let name = cs[i].name.as_str();
        if !contains_str(syms, name) {
            let rhs = trim_string(cs[i].rhs_code.as_str());
            if is_import_code(rhs.as_str()) {
                let ghost prev = views(imps@);
                let ghost rv = rhs@;
                imps.push(rhs);
                assert(views(imps@) =~= prev.push(rv));
            } else {
                let mut code = concat3("const ", name, " = ");
                code.append(rhs.as_str());
                code.append(";");
                let ghost prev = pair_views(defs@);
                let ghost e = (name@, "const "@ + name@ + " = "@ + rhs@ + ";"@);
                assert(code@ =~= e.1);
                defs.push((crate::copy_string(&cs[i].name), code));
                assert(pair_views(defs@) =~= prev.push(e));
            }
        }
        i += 1;
    }
    assert(cv.take(cs@.len() as int) =~= cv);
    (imps, defs)
}

fn var_items_of(hoisted: &Vec<(String, String)>) -> (r: Vec<(String, String)>)
    ensures
        pair_views(r@) == var_items(pair_views(hoisted@)),
{
    let ghost target = var_items(pair_views(hoisted@));
    let mut r: Vec<(String, String)> = Vec::new();
    let mut i: usize = 0;
    while i < hoisted.len()
        invariant
            i <= hoisted@.len(),
            target == var_items(pair_views(hoisted@)),
            pair_views(r@) == target.take(i as int),
        decreases hoisted@.len() - i,
    {
        let sym = hoisted[i].0.as_str();
        let mut code = concat3("var ", sym, " = ");
        code.append(hoisted[i].1.as_str());
        code.append(";");
        let ghost prev = pair_views(r@);
        let ghost e = target[i as int];
        assert(code@ =~= e.1);
        r.push((crate::copy_string(&hoisted[i].0), code));
        assert(pair_views(r@) =~= prev.push(e));
        assert(target.take(i + 1) =~= target.take(i as int).push(e));
        i += 1;
    }
    assert(target.take(hoisted@.len() as int) =~= target);
    r
}

fn seconds_of(ps: Vec<(String, String)>) -> (r: Vec<String>)
    ensures
        views(r@) == seconds(pair_views(ps@)),
{
    let ghost target = seconds(pair_views(ps@));
    let mut r: Vec<String> = Vec::new();
    let mut i: usize = 0;
    while i < ps.len()
        invariant
            i <= ps@.len(),
            target == seconds(pair_views(ps@)),
            views(r@) == target.take(i as int),
        decreases ps@.len() - i,
    {
        let ghost prev = views(r@);
        r.push(crate::copy_string(&ps[i].1));
        assert(views(r@) =~= prev.push(target[i as int]));
        assert(target.take(i + 1) =~= target.take(i as int).push(target[i as int]));
        i += 1;
    }
    assert(target.take(ps@.len() as int) =~= target);
    r
}

fn migrated_parts_of(ms: &[String]) -> (r: Vec<String>)
    ensures
        views(r@) == migrated_parts(views(ms@)),
{
    let ghost mv = views(ms@);
    let mut r: Vec<String> = Vec::new();
    let mut i: usize = 0;
    assert(migrated_parts(mv.take(0)) =~= Seq::<Seq<char>>::empty());
    assert(views(r@) =~= Seq::<Seq<char>>::empty());
    while i < ms.len()
        invariant
            i <= ms@.len(),
            mv == views(ms@),
            views(r@) == migrated_parts(mv.take(i as int)),
        decreases ms@.len() - i,
    {
        assert(mv.take(i + 1).drop_last() =~= mv.take(i as int));
        assert(mv.take(i + 1).last() == ms@[i as int]@);
        let t = trim_string(ms[i].as_str());
        if t.as_str().unicode_len() > 0 {
            let ghost prev = views(r@);
            let ghost tv = t@;
            r.push(t);
            assert(views(r@) =~= prev.push(tv));
        }
        i += 1;
    }
    assert(mv.take(ms@.len() as int) =~= mv);
    r
}

/// Build the module of a segment: the `_captures` import when anything is
/// captured; the imports of the names the segment uses; the synthetic imports;
/// the hoisted constants it needs that are imports; the hoisted QRLs (`var`)
/// and the other needed constants (`const`) in dependency order; all of these
/// deduplicated by the symbol each defines; then the declarations moved into
/// the segment; and last `export const {name} = {expr};` with the expression
/// after reading its captures, hoisting its QRLs and rewriting self-referential
/// `const`s. The parts are joined with newlines.
pub fn new_module(ctx: &NewModuleCtx<'_>) -> (r: String)
    requires
        new_module_inputs_ok(*ctx),
    ensures
        is_segment_module(*ctx, r@),
{
    let ghost scoped = views(ctx.scoped_idents@);
    let ghost local = views(ctx.local_idents@);
    // Step 1: the captures import.
    let mut header: Vec<String> = Vec::new();
    if ctx.scoped_idents.len() > 0 {
        header.push(new_module_captures_import(ctx.core_module));
    }
    assert(views(header@) =~= header_spec(scoped, ctx.core_module@));
    // Steps 2 to 4: captures read, QRLs hoisted, self-references rewritten.
    let transformed = transform_function_expr(ctx.expr, ctx.scoped_idents);
    assert(transformed@ == segment_expr_spec(ctx.expr@, scoped));
    let (after_hoist, hoisted) = hoist_qrls_from_expr(transformed.as_str());
    let final_expr = fix_self_referential_vars(after_hoist.as_str());
    let ghost hv = pair_views(hoisted@);
    assert(hv == hoisted_spec(ctx.expr@, scoped));
    assert(final_expr@ == final_expr_spec(ctx.expr@, scoped));
    // Step 5: the hoisted constants the segment needs.
    let seed = build_seed(ctx.local_idents, ctx.scoped_idents, final_expr.as_str(), &hoisted);
    let needed_extras = collect_needed_extra_top_items(ctx.extra_top_items, &seed);
    let ghost needed = choose|needed: Set<Seq<char>>|
        {
            &&& needed_closed(ctx.extra_top_items@, views(seed@), needed)
            &&& forall|s: Set<Seq<char>>|
                needed_closed(ctx.extra_top_items@, views(seed@), s) ==> needed.subset_of(s)
            &&& needed_extras@.len() == consts_named(ctx.extra_top_items@, needed).len()
            &&& forall|k: int|
                0 <= k < needed_extras@.len() ==> same_const(
                    #[trigger] needed_extras@[k],
                    consts_named(ctx.extra_top_items@, needed)[k],
                )
        };
    let ghost extras = const_views(consts_named(ctx.extra_top_items@, needed));
    assert(const_views(needed_extras@) =~= extras) by {
        assert forall|k: int| 0 <= k < needed_extras@.len() implies const_views(needed_extras@)[k]
            == extras[k] by {
            assert(same_const(needed_extras@[k], consts_named(ctx.extra_top_items@, needed)[k]));
        }
    }
    // Step 6: the names to import.
    let mut combined: Vec<String> = Vec::new();
    extend_strings(&mut combined, ctx.local_idents);
    assert(views(combined@) =~= local);
    let hoisted_syms = firsts_of(&hoisted);
    append_all_new(&mut combined, &hoisted_syms);
    let extra_idents = rhs_idents_of(&needed_extras);
    append_all_new(&mut combined, &extra_idents);
    // Step 7: their import statements.
    let import_stmts = generate_imports(
        &combined,
        ctx.global,
        ctx.file_stem,
        ctx.explicit_extensions,
        ctx.core_module,
    );
    // Steps 8 and 9: the symbols imported so far; the needed constants they
    // do not define, split into imports and definitions.
    let mut syms = sym_list_of(&import_stmts);
    let header_syms = sym_list_of(&header);
    extend_strings(&mut syms, header_syms.as_slice());
    let (extra_imports, extra_defs) = split_extras(&needed_extras, &syms);
    // Step 10: hoisted QRLs and definitions in dependency order.
    let mut items = var_items_of(&hoisted);
    let ghost vi = pair_views(items@);
    let ghost ed = pair_views(extra_defs@);
    let mut k: usize = 0;
    let mut extra_defs = extra_defs;
    while k < extra_defs.len()
        invariant
            k <= extra_defs@.len(),
            ed == pair_views(extra_defs@),
            pair_views(items@) == vi + ed.take(k as int),
        decreases extra_defs@.len() - k,
    {
        let ghost prev = pair_views(items@);
        items.push((crate::copy_string(&extra_defs[k].0), crate::copy_string(&extra_defs[k].1)));
        assert(pair_views(items@) =~= prev.push(ed[k as int]));
        assert(ed.take(k + 1) =~= ed.take(k as int).push(ed[k as int]));
        k += 1;
    }
    assert(ed.take(extra_defs@.len() as int) =~= ed);
    let ghost items_s = items@;
    let sorted = order_items_by_dependency(items);
    let ghost sorted_v = pair_views(sorted@);
    let sorted_code = seconds_of(sorted);
    // Step 11: all items, deduplicated by the symbol each defines.
    let mut all: Vec<String> = Vec::new();
    assert(views(all@) =~= Seq::<Seq<char>>::empty());
    extend_strings(&mut all, header.as_slice());
    extend_strings(&mut all, import_stmts.as_slice());
    extend_strings(&mut all, ctx.synthetic_imports);
    extend_strings(&mut all, extra_imports.as_slice());
    extend_strings(&mut all, sorted_code.as_slice());
    let ghost all_snapshot = views(all@);
    assert(all_snapshot == views(header@) + views(import_stmts@) + views(ctx.synthetic_imports@)
        + views(extra_imports@) + seconds(sorted_v));
    let mut parts = dedup_by_sym(all);
    let ghost deduped = views(parts@);
    // Steps 12 and 13: the moved declarations, then the named export.
    let migrated = migrated_parts_of(ctx.migrated_root_vars);
    extend_strings(&mut parts, migrated.as_slice());
    assert(views(parts@) == deduped + migrated_parts(views(ctx.migrated_root_vars@)));
    let export_stmt = create_named_export(ctx.name, final_expr.as_str());
    let ghost before_export = views(parts@);
    let ghost ev = export_stmt@;
    parts.push(export_stmt);
    assert(views(parts@) =~= before_export.push(ev));
    let r = join_with_newlines(parts.as_slice());
    proof {
        assert(views(seed@) =~= local + scoped + word_idents_spec(final_expr_spec(ctx.expr@, scoped))
            + hoist_seed(hoisted_spec(ctx.expr@, scoped)));
        assert(views(parts@) =~= parts@.map_values(|s: String| s@));
        let fin = final_expr_spec(ctx.expr@, scoped);
        let hoisted_v = hoisted_spec(ctx.expr@, scoped);
        let seed_v = local + scoped + word_idents_spec(fin) + hoist_seed(hoisted_v);
        let combined_v = append_new(append_new(local, firsts(hoisted_v)), rhs_idents(extras));
        let header_v = header_spec(scoped, ctx.core_module@);
        let syms_v = sym_list(views(import_stmts@)) + sym_list(header_v);
        assert(views(seed@) == seed_v);
        assert(needed_closed(ctx.extra_top_items@, seed_v, needed));
        assert(views(combined@) == combined_v);
        assert(generated_imports(combined_v, ctx.global.view_of(), ctx.file_stem@, ctx.explicit_extensions, views(import_stmts@)));
        assert(views(syms@) == syms_v);
        assert(pair_views(items_s) == var_items(hoisted_v) + extra_defs_of(extras, syms_v));
        assert(dependency_order(items_s, kahn_done(items_s), kahn_emitted(items_s), sorted_v));
        assert(views(extra_imports@) == extra_imports_of(extras, syms_v));
        let all_v = header_v + views(import_stmts@) + views(ctx.synthetic_imports@) + extra_imports_of(extras, syms_v)
            + seconds(sorted_v);
        assert(all_snapshot == all_v);
        assert(views(parts@) == dedup_spec(all_v, Set::empty()) + migrated_parts(views(ctx.migrated_root_vars@)) + seq![
                named_export_spec(ctx.name@, fin),
            ]);
        assert(r@ == join_lines(
            dedup_spec(all_v, Set::empty()) + migrated_parts(views(ctx.migrated_root_vars@)) + seq![
                named_export_spec(ctx.name@, fin),
            ],
        ));
        assert(segment_module_holds(
            ctx.expr@,
            ctx.name@,
            ctx.file_stem@,
            local,
            scoped,
            ctx.global.view_of(),
            ctx.core_module@,
            ctx.explicit_extensions,
            ctx.extra_top_items@,
            views(ctx.migrated_root_vars@),
            views(ctx.synthetic_imports@),
            needed,
            views(import_stmts@),
            items_s,
            sorted_v,
            r@,
        ));
    }
    r
}

/// Whether a module can be built from `expr` with captures `scoped` (see
/// `module_inputs_ok`).
pub fn module_inputs_check(expr: &str, scoped: &[String]) -> (r: bool)
    ensures
        r == module_inputs_ok(expr@, views(scoped@)),
{
    if expr.unicode_len() >= 0x8000_0000 {
        return false;
    }
    let transformed = transform_function_expr(expr, scoped);
    if transformed.as_str().unicode_len() >= 0x8000_0000 {
        return false;
    }
    let (after_hoist, _hoisted) = hoist_qrls_from_expr(transformed.as_str());
    !self_reference_rewrite_diverges(after_hoist.as_str())
}

/// Build the module of a segment where its inputs allow it (see
/// `new_module_inputs_ok`); `None` where they do not.
pub fn try_new_module(ctx: &NewModuleCtx<'_>) -> (r: Option<String>)
    ensures
        r is Some <==> new_module_inputs_ok(*ctx),
        match r {
            Some(m) => is_segment_module(*ctx, m@),
            None => true,
        },
{
    if !module_inputs_check(ctx.expr, ctx.scoped_idents) {
        return None;
    }
    Some(new_module(ctx))
}

} // verus!
