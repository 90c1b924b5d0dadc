//! Variable migration: root-level declarations used by exactly one segment
//! move into that segment's module. The decision comes from the dependency
//! analysis; this module applies it to the segments and says which top-level
//! statements of the root module stay.

use vstd::prelude::*;

use crate::code_move::views;
use crate::collector::{import_names, GlobalCollect};
use crate::dependency_analysis::{
    analyze_root_dependencies, build_main_module_usage_set, build_root_var_usage_map,
    distinct_keys, find_migratable_vars, has_key, ints, keyed_as, main_uses, migration_decision,
    root_decls_upto, root_info, using_segments, MainStmt, RootDeclarator, RootStmt, RootVarInfo,
};
use crate::module_output::SegmentRecord;
use crate::text::{chars_of, contains_str, matches_at, str_eq};

verus! {

// ---------------------------------------------------------------------------
// What a migration does
// ---------------------------------------------------------------------------

/// The names that migrate: those of every group.
pub open spec fn migrated_names(mig: Seq<(usize, Vec<String>)>) -> Set<Seq<char>> {
    Set::new(
        |n: Seq<char>|
            exists|g: int| 0 <= g < mig.len() && views((#[trigger] mig[g]).1@).contains(n),
    )
}

/// The code of the migrating declarations `names`, in order; declarations
/// without code are left out.
pub open spec fn migrated_code(rd: Seq<(String, RootVarInfo)>, names: Seq<Seq<char>>) -> Seq<
    Seq<char>,
>
    decreases names.len(),
{
    if names.len() == 0 {
        Seq::empty()
    } else {
        let p = migrated_code(rd, names.drop_last());
        let n = names.last();
        if has_key(rd, n) && root_info(rd, n).code@.len() > 0 {
            p.push(root_info(rd, n).code@)
        } else {
            p
        }
    }
}

/// The names of the last group of segment `k` among the first `g` groups.
pub open spec fn group_of(mig: Seq<(usize, Vec<String>)>, g: int, k: int) -> Option<Seq<Seq<char>>>
    decreases g,
{
    if g <= 0 {
        None
    } else if mig[g - 1].0 == k {
        Some(views(mig[g - 1].1@))
    } else {
        group_of(mig, g - 1, k)
    }
}

/// The names that do not migrate, in order.
pub open spec fn unmoved(names: Seq<Seq<char>>, moved: Set<Seq<char>>) -> Seq<Seq<char>>
    decreases names.len(),
{
    if names.len() == 0 {
        Seq::empty()
    } else {
        let p = unmoved(names.drop_last(), moved);
        if moved.contains(names.last()) {
            p
        } else {
            p.push(names.last())
        }
    }
}

/// `new` is `old` after a migration: the migrated declarations' code when
/// `code` is given, the migrated names taken out of its identifiers, and
/// everything else as it was.
pub open spec fn segment_migrated(
    old: SegmentRecord,
    new: SegmentRecord,
    code: Option<Seq<Seq<char>>>,
    moved: Set<Seq<char>>,
) -> bool {
    &&& views(new.migrated_root_vars@) == match code {
        Some(c) => c,
        None => views(old.migrated_root_vars@),
    }
    &&& views(new.local_idents@) == unmoved(views(old.local_idents@), moved)
    &&& views(new.scoped_idents@) == unmoved(views(old.scoped_idents@), moved)
    &&& new.name == old.name
    &&& new.display_name == old.display_name
    &&& new.canonical_filename == old.canonical_filename
    &&& new.entry == old.entry
    &&& new.expr == old.expr
    &&& new.ctx_name == old.ctx_name
    &&& new.ctx_kind == old.ctx_kind
    &&& new.origin == old.origin
    &&& new.span == old.span
    &&& new.hash == old.hash
    &&& new.is_inline == old.is_inline
    &&& new.parent == old.parent
    &&& new.pending_parent_span == old.pending_parent_span
    &&& new.param_names == old.param_names
}

/// The declarator binds a migrating name.
pub open spec fn binds_moved(d: RootDeclarator, moved: Set<Seq<char>>) -> bool {
    d.name matches Some(x) && moved.contains(x@)
}

/// A statement that the migration removes from the root module: a
/// declaration (not exported) all of whose names migrate, or an
/// `export { ... }` (its local names are `export_locals`) of migrating names only.
pub open spec fn removed_by_migration(
    s: RootStmt,
    export_locals: Seq<Seq<char>>,
    moved: Set<Seq<char>>,
) -> bool {
    ||| (match s {
        RootStmt::Vars { declarators, exported, .. } => !exported && forall|j: int|
            0 <= j < declarators@.len() ==> binds_moved(#[trigger] declarators@[j], moved),
        RootStmt::FnOrClass { name, exported, .. } => !exported && (name matches Some(n)
            && moved.contains(n@)),
        RootStmt::Other => false,
    })
    ||| (export_locals.len() > 0 && forall|j: int|
        0 <= j < export_locals.len() ==> moved.contains(#[trigger] export_locals[j]))
}

/// `s` begins with `p`.
pub open spec fn starts_with(s: Seq<char>, p: Seq<char>) -> bool {
    p.len() <= s.len() && s.subrange(0, p.len() as int) == p
}

/// The name of a QRL declaration: a variable declaration (not exported) whose
/// first declarator binds a name starting with `_qrl_` or `i_`.
pub open spec fn qrl_decl_name(s: RootStmt) -> Option<Seq<char>> {
    match s {
        RootStmt::Vars { declarators, exported, .. } => if !exported && declarators@.len() > 0
            && declarators@[0].name is Some && (starts_with(declarators@[0].name->0@, "_qrl_"@)
            || starts_with(declarators@[0].name->0@, "i_"@)) {
            Some(declarators@[0].name->0@)
        } else {
            None
        },
        _ => None,
    }
}

/// Some kept statement references `n`.
pub open spec fn referenced(main: Seq<MainStmt>, kept: Seq<bool>, n: Seq<char>) -> bool {
    exists|j: int| 0 <= j < kept.len() && kept[j] && views((#[trigger] main[j]).refs@).contains(n)
}

/// One round of removing the QRL declarations that no kept statement references.
pub open spec fn prune_step(root: Seq<RootStmt>, main: Seq<MainStmt>, kept: Seq<bool>) -> Seq<bool> {
    Seq::new(
        kept.len(),
        |i: int|
            kept[i] && !(qrl_decl_name(root[i]) matches Some(n) && !referenced(main, kept, n)),
    )
}

/// Rounds of `prune_step` until nothing changes (at most `fuel` of them).
pub open spec fn pruned(root: Seq<RootStmt>, main: Seq<MainStmt>, kept: Seq<bool>, fuel: nat) -> Seq<
    bool,
>
    decreases fuel,
{
    if fuel == 0 || prune_step(root, main, kept) == kept {
        kept
    } else {
        pruned(root, main, prune_step(root, main, kept), (fuel - 1) as nat)
    }
}

/// The statements that stay after the removals of a migration.
pub open spec fn kept_after_removal(
    root: Seq<RootStmt>,
    export_locals: Seq<Vec<String>>,
    moved: Set<Seq<char>>,
) -> Seq<bool> {
    Seq::new(root.len(), |i: int| !removed_by_migration(root[i], views(export_locals[i]@), moved))
}

/// The usage map of the root declarations by the segments.
pub open spec fn usage_map_of(
    rd: Seq<(String, RootVarInfo)>,
    segs: Seq<SegmentRecord>,
    um: Seq<(String, Vec<usize>)>,
) -> bool {
    &&& um.len() == rd.len()
    &&& forall|k: int|
        0 <= k < um.len() ==> {
            &&& (#[trigger] um[k]).0@ == rd[k].0@
            &&& ints(um[k].1@) == using_segments(segs, rd[k].0@)
        }
}

/// What applying the migration decision `mig` (on the root declarations
/// `rd`) does: each segment as `segment_migrated` says, and the statements in
/// `kept` stay; with nothing to migrate, nothing changes.
pub open spec fn migration_applied(
    rd: Seq<(String, RootVarInfo)>,
    mig: Seq<(usize, Vec<String>)>,
    root: Seq<RootStmt>,
    main: Seq<MainStmt>,
    export_locals: Seq<Vec<String>>,
    old_segs: Seq<SegmentRecord>,
    new_segs: Seq<SegmentRecord>,
    kept: Seq<bool>,
) -> bool {
    if mig.len() == 0 {
        &&& new_segs == old_segs
        &&& kept == Seq::new(root.len(), |i: int| true)
    } else {
        &&& new_segs.len() == old_segs.len()
        &&& forall|k: int|
            0 <= k < new_segs.len() ==> segment_migrated(
                old_segs[k],
                #[trigger] new_segs[k],
                match group_of(mig, mig.len() as int, k) {
                    Some(names) => Some(migrated_code(rd, names)),
                    None => None,
                },
                migrated_names(mig),
            )
        &&& kept == pruned(
            root,
            main,
            kept_after_removal(root, export_locals, migrated_names(mig)),
            root.len(),
        )
    }
}

// ---------------------------------------------------------------------------
// Applying a migration
// ---------------------------------------------------------------------------

fn is_migrated(mig: &Vec<(usize, Vec<String>)>, n: &str) -> (r: bool)
    ensures
        r == migrated_names(mig@).contains(n@),
{
    let mut g: usize = 0;
    while g < mig.len()
        invariant
            g <= mig@.len(),
            forall|q: int| 0 <= q < g ==> !views((#[trigger] mig@[q]).1@).contains(n@),
        decreases mig@.len() - g,
    {
        if contains_str(&mig[g].1, n) {
            assert(views(mig@[g as int].1@).contains(n@));
            return true;
        }
        g += 1;
    }
    false
}

/// The code of the migrating declarations `names`.
fn code_of(rd: &Vec<(String, RootVarInfo)>, names: &Vec<String>) -> (r: Vec<String>)
    requires
        distinct_keys(rd@),
    ensures
        views(r@) == migrated_code(rd@, views(names@)),
{
    let mut r: Vec<String> = Vec::new();
    let mut i: usize = 0;
    while i < names.len()
        invariant
            i <= names@.len(),
            distinct_keys(rd@),
            views(r@) == migrated_code(rd@, views(names@).take(i as int)),
        decreases names@.len() - i,
    {
        proof {
            assert(views(names@).take(i + 1).drop_last() =~= views(names@).take(i as int));
            assert(views(names@).take(i + 1).last() == names@[i as int]@);
        }
        match crate::dependency_analysis::find_key(rd, names[i].as_str()) {
            Some(k) => {
                if rd[k].1.code.as_str().unicode_len() > 0 {
                    let ghost before = views(r@);
                    r.push(crate::copy_string(&rd[k].1.code));
                    proof {
                        assert(views(r@) =~= before.push(rd@[k as int].1.code@));
                    }
                }
            },
            None => {},
        }
        i += 1;
    }
    proof {
        assert(views(names@).take(names@.len() as int) =~= views(names@));
    }
    r
}

/// The position of the last group of segment `k`.
fn group_for(mig: &Vec<(usize, Vec<String>)>, k: usize) -> (r: Option<usize>)
    ensures
        match r {
            Some(g) => g < mig@.len() && group_of(mig@, mig@.len() as int, k as int) == Some(
                views(mig@[g as int].1@),
            ),
            None => group_of(mig@, mig@.len() as int, k as int) is None,
        },
{
    let mut found: Option<usize> = None;
    let mut g: usize = 0;
    while g < mig.len()
        invariant
            g <= mig@.len(),
            match found {
                Some(q) => q < g && group_of(mig@, g as int, k as int) == Some(views(mig@[q as int].1@)),
                None => group_of(mig@, g as int, k as int) is None,
            },
        decreases mig@.len() - g,
    {
        if mig[g].0 == k {
            found = Some(g);
        }
        g += 1;
    }
    found
}

/// The names that do not migrate.
fn keep_unmoved(names: &Vec<String>, mig: &Vec<(usize, Vec<String>)>) -> (r: Vec<String>)
    ensures
        views(r@) == unmoved(views(names@), migrated_names(mig@)),
{
    let mut r: Vec<String> = Vec::new();
    let mut i: usize = 0;
    while i < names.len()
        invariant
            i <= names@.len(),
            views(r@) == unmoved(views(names@).take(i as int), migrated_names(mig@)),
        decreases names@.len() - i,
    {
        proof {
            assert(views(names@).take(i + 1).drop_last() =~= views(names@).take(i as int));
            assert(views(names@).take(i + 1).last() == names@[i as int]@);
        }
        if !is_migrated(mig, names[i].as_str()) {
            let ghost before = views(r@);
            r.push(crate::copy_string(&names[i]));
            proof {
                assert(views(r@) =~= before.push(names@[i as int]@));
            }
        }
        i += 1;
    }
    proof {
        assert(views(names@).take(names@.len() as int) =~= views(names@));
    }
    r
}

/// Apply the migration groups to the segments.
fn migrate_segments(
    rd: &Vec<(String, RootVarInfo)>,
    mig: &Vec<(usize, Vec<String>)>,
    segments: &mut Vec<SegmentRecord>,
)
    requires
        distinct_keys(rd@),
    ensures
        final(segments)@.len() == old(segments)@.len(),
        forall|k: int|
            0 <= k < final(segments)@.len() ==> segment_migrated(
                old(segments)@[k],
                #[trigger] final(segments)@[k],
                match group_of(mig@, mig@.len() as int, k) {
                    Some(names) => Some(migrated_code(rd@, names)),
                    None => None,
                },
                migrated_names(mig@),
            ),
{
    let ghost orig = segments@;
    let mut rest: Vec<SegmentRecord> = Vec::new();
    core::mem::swap(segments, &mut rest);
    let n = rest.len();
    let mut k: usize = 0;
    while k < n
        invariant
            k <= n == orig.len(),
            distinct_keys(rd@),
            rest@ == orig.subrange(k as int, n as int),
            segments@.len() == k,
            forall|j: int|
                0 <= j < k ==> segment_migrated(
                    orig[j],
                    #[trigger] segments@[j],
                    match group_of(mig@, mig@.len() as int, j) {
                        Some(names) => Some(migrated_code(rd@, names)),
                        None => None,
                    },
                    migrated_names(mig@),
                ),
        decreases n - k,
    {
        let mut seg = rest.remove(0);
        proof {
            assert(seg == orig[k as int]);
            assert(rest@ =~= orig.subrange(k + 1, n as int));
        }
        match group_for(mig, k) {
            Some(g) => {
                seg.migrated_root_vars = code_of(rd, &mig[g].1);
            },
            None => {},
        }
        seg.local_idents = keep_unmoved(&seg.local_idents, mig);
        seg.scoped_idents = keep_unmoved(&seg.scoped_idents, mig);
        segments.push(seg);
        k += 1;
    }
}

/// Whether the migration removes statement `s` (see `removed_by_migration`).
fn removed_stmt(s: &RootStmt, export_locals: &Vec<String>, mig: &Vec<(usize, Vec<String>)>) -> (r: bool)
    ensures
        r == removed_by_migration(*s, views(export_locals@), migrated_names(mig@)),
{
    let ghost moved = migrated_names(mig@);
    let by_decl = match s {
        RootStmt::Vars { declarators, exported, .. } => {
            if *exported {
                false
            } else {
                let mut all = true;
                let mut j: usize = 0;
                while j < declarators.len()
                    invariant
                        j <= declarators@.len(),
                        moved == migrated_names(mig@),
                        all == forall|q: int| 0 <= q < j ==> binds_moved(#[trigger] declarators@[q], moved),
                    decreases declarators@.len() - j,
                {
                    let here = match &declarators[j].name {
                        Some(x) => is_migrated(mig, x.as_str()),
                        None => false,
                    };
                    if !here {
                        all = false;
                    }
                    proof {
                        assert(here == binds_moved(declarators@[j as int], moved));
                    }
                    j += 1;
                }
                all
            }
        },
        RootStmt::FnOrClass { name, exported, .. } => {
            if *exported {
                false
            } else {
                match name {
                    Some(x) => is_migrated(mig, x.as_str()),
                    None => false,
                }
            }
        },
        RootStmt::Other => false,
    };
    let mut by_export = export_locals.len() > 0;
    let mut j: usize = 0;
    while j < export_locals.len()
        invariant
            j <= export_locals@.len(),
            moved == migrated_names(mig@),
            by_export == (export_locals@.len() > 0 && forall|q: int|
                0 <= q < j ==> moved.contains(#[trigger] views(export_locals@)[q])),
        decreases export_locals@.len() - j,
    {
        assert(views(export_locals@)[j as int] == export_locals@[j as int]@);
        if !is_migrated(mig, export_locals[j].as_str()) {
            by_export = false;
        }
        j += 1;
    }
    by_decl || by_export
}

/// The name of a QRL declaration (see `qrl_decl_name`).
fn qrl_decl(s: &RootStmt) -> (r: Option<&String>)
    ensures
        match r {
            Some(n) => qrl_decl_name(*s) == Some(n@),
            None => qrl_decl_name(*s) is None,
        },
{
    match s {
        RootStmt::Vars { declarators, exported, .. } => {
            if *exported || declarators.len() == 0 {
                return None;
            }
            match &declarators[0].name {
                Some(n) => {
                    let v = chars_of(n.as_str());
                    let p1 = chars_of("_qrl_");
                    let p2 = chars_of("i_");
                    proof {
                        reveal_strlit("_qrl_");
                        reveal_strlit("i_");
                    }
                    if matches_at(&v, &p1, 0) || matches_at(&v, &p2, 0) {
                        Some(n)
                    } else {
                        None
                    }
                },
                None => None,
            }
        },
        _ => None,
    }
}

fn is_referenced(main: &Vec<MainStmt>, kept: &Vec<bool>, n: &str) -> (r: bool)
    requires
        main@.len() == kept@.len(),
    ensures
        r == referenced(main@, kept@, n@),
{
    let mut j: usize = 0;
    while j < kept.len()
        invariant
            j <= kept@.len(),
            main@.len() == kept@.len(),
            forall|q: int| 0 <= q < j ==> !(kept@[q] && views((#[trigger] main@[q]).refs@).contains(n@)),
        decreases kept@.len() - j,
    {
        if kept[j] && contains_str(&main[j].refs, n) {
            assert(kept@[j as int] && views(main@[j as int].refs@).contains(n@));
            return true;
        }
        j += 1;
    }
    false
}

fn prune_once(root: &Vec<RootStmt>, main: &Vec<MainStmt>, kept: &Vec<bool>) -> (r: Vec<bool>)
    requires
        main@.len() == kept@.len(),
        root@.len() == kept@.len(),
    ensures
        r@ == prune_step(root@, main@, kept@),
{
    let mut r: Vec<bool> = Vec::new();
    let mut i: usize = 0;
    while i < kept.len()
        invariant
            i <= kept@.len(),
            main@.len() == kept@.len(),
            root@.len() == kept@.len(),
            r@ == prune_step(root@, main@, kept@).take(i as int),
        decreases kept@.len() - i,
    {
        let stays = if !kept[i] {
            false
        } else {
            match qrl_decl(&root[i]) {
                Some(n) => is_referenced(main, kept, n.as_str()),
                None => true,
            }
        };
        r.push(stays);
        proof {
            assert(prune_step(root@, main@, kept@).take(i + 1) =~= prune_step(root@, main@, kept@).take(
                i as int,
            ).push(stays));
        }
        i += 1;
    }
    proof {
        assert(prune_step(root@, main@, kept@).take(kept@.len() as int) =~= prune_step(root@, main@, kept@));
    }
    r
}

proof fn lemma_prune_shrinks(root: Seq<RootStmt>, main: Seq<MainStmt>, kept: Seq<bool>)
    requires
        prune_step(root, main, kept) != kept,
    ensures
        crate::item_order::count_true(prune_step(root, main, kept)) < crate::item_order::count_true(kept),
{
    let p = prune_step(root, main, kept);
    let i = choose|i: int| 0 <= i < kept.len() && p[i] != kept[i];
    if !(exists|i: int| 0 <= i < kept.len() && p[i] != kept[i]) {
        assert(p =~= kept);
    }
    lemma_count_le(p, kept, i);
}

/// Dropping flags lowers the count; dropping one at `i` lowers it strictly.
proof fn lemma_count_le(a: Seq<bool>, b: Seq<bool>, i: int)
    requires
        a.len() == b.len(),
        forall|k: int| 0 <= k < a.len() && #[trigger] a[k] ==> b[k],
        0 <= i < a.len(),
        a[i] != b[i],
    ensures
        crate::item_order::count_true(a) < crate::item_order::count_true(b),
    decreases a.len(),
{
    lemma_count_mono(a.drop_last(), b.drop_last());
    if i < a.len() - 1 {
        lemma_count_le(a.drop_last(), b.drop_last(), i);
    }
}

proof fn lemma_count_mono(a: Seq<bool>, b: Seq<bool>)
    requires
        a.len() == b.len(),
        forall|k: int| 0 <= k < a.len() && #[trigger] a[k] ==> b[k],
    ensures
        crate::item_order::count_true(a) <= crate::item_order::count_true(b),
    decreases a.len(),
{
    if a.len() > 0 {
        lemma_count_mono(a.drop_last(), b.drop_last());
    }
}

/// Remove QRL declarations that nothing references, round after round.
fn prune_unused_qrls(root: &Vec<RootStmt>, main: &Vec<MainStmt>, kept: Vec<bool>) -> (r: Vec<bool>)
    requires
        main@.len() == kept@.len(),
        root@.len() == kept@.len(),
    ensures
        r@ == pruned(root@, main@, kept@, kept@.len()),
{
    let ghost k0 = kept@;
    let ghost target = pruned(root@, main@, k0, k0.len());
    let mut cur = kept;
    let mut fuel: usize = cur.len();
    proof {
        crate::item_order::lemma_count_true_bound(cur@);
    }
    loop
        invariant
            main@.len() == cur@.len(),
            root@.len() == cur@.len(),
            crate::item_order::count_true(cur@) <= fuel,
            pruned(root@, main@, cur@, fuel as nat) == target,
        ensures
            cur@ == target,
        decreases fuel,
    {
        let next = prune_once(root, main, &cur);
        let mut same = true;
        let mut i: usize = 0;
        while i < cur.len()
            invariant
                i <= cur@.len(),
                next@.len() == cur@.len(),
                same == forall|k: int| 0 <= k < i ==> next@[k] == cur@[k],
            decreases cur@.len() - i,
        {
            if next[i] != cur[i] {
                same = false;
            }
            i += 1;
        }
        if same {
            assert(next@ =~= cur@);
            assert(pruned(root@, main@, cur@, fuel as nat) == cur@);
            break;
        }
        proof {
            lemma_prune_shrinks(root@, main@, cur@);
        }
        cur = next;
        fuel = fuel - 1;
    }
    cur
}

/// The statements that stay after the removals of a migration (executable).
fn kept_flags(
    root: &Vec<RootStmt>,
    export_locals: &Vec<Vec<String>>,
    mig: &Vec<(usize, Vec<String>)>,
) -> (r: Vec<bool>)
    requires
        export_locals@.len() == root@.len(),
    ensures
        r@ == kept_after_removal(root@, export_locals@, migrated_names(mig@)),
{
    let mut r: Vec<bool> = Vec::new();
    let mut i: usize = 0;
    while i < root.len()
        invariant
            i <= root@.len(),
            export_locals@.len() == root@.len(),
            r@ == kept_after_removal(root@, export_locals@, migrated_names(mig@)).take(i as int),
        decreases root@.len() - i,
    {
        let stays = !removed_stmt(&root[i], &export_locals[i], mig);
        r.push(stays);
        proof {
            let all = kept_after_removal(root@, export_locals@, migrated_names(mig@));
            assert(all.take(i + 1) =~= all.take(i as int).push(stays));
        }
        i += 1;
    }
    proof {
        let all = kept_after_removal(root@, export_locals@, migrated_names(mig@));
        assert(all.take(root@.len() as int) =~= all);
    }
    r
}

/// Migrate the root-level declarations that only one segment uses into that
/// segment: find them (`migration_decision` over the root declarations, their
/// use by the segments and by the root module's own code), give each segment
/// the code of its migrating declarations, take the migrating names out of
/// the segments' identifiers, and return which top-level statements of the
/// root module stay (see `migration_applied`). `root`, `main` and
/// `export_locals` describe the same statements: as the dependency analysis
/// reads them, as the usage scan reads them, and the local names of an
/// `export { ... }` statement (empty for any other).
pub fn apply_variable_migration(
    root: &Vec<RootStmt>,
    main: &Vec<MainStmt>,
    export_locals: &Vec<Vec<String>>,
    collect: &GlobalCollect,
    segments: &mut Vec<SegmentRecord>,
) -> (kept: Vec<bool>)
    requires
        main@.len() == root@.len(),
        export_locals@.len() == root@.len(),
    ensures
        exists|
            rd: Seq<(String, RootVarInfo)>,
            um: Seq<(String, Vec<usize>)>,
            mu: Seq<String>,
            mig: Seq<(usize, Vec<String>)>,
        |
            {
                &&& keyed_as(
                    rd,
                    root_decls_upto(
                        root@,
                        import_names(collect.view_of()),
                        collect.view_of().exports,
                        root@.len() as int,
                    ),
                )
                &&& usage_map_of(rd, old(segments)@, um)
                &&& forall|n: Seq<char>| #[trigger] views(mu).contains(n) <==> main_uses(main@, n)
                &&& migration_decision(rd, um, views(mu), mig)
                &&& migration_applied(
                    rd,
                    mig,
                    root@,
                    main@,
                    export_locals@,
                    old(segments)@,
                    final(segments)@,
                    kept@,
                )
            },
{
    let ghost old_segs = segments@;
    let root_deps = analyze_root_dependencies(root, collect);
    let usage_map = build_root_var_usage_map(&root_deps, segments);
    let main_usage = build_main_module_usage_set(main, segments);
    proof {
        assert forall|a: int, b: int| 0 <= a < b < usage_map@.len() implies (
        #[trigger] usage_map@[a]).0@ != (#[trigger] usage_map@[b]).0@ by {
            assert(root_deps@[a].0@ != root_deps@[b].0@);
        }
    }
    let migratable = find_migratable_vars(&root_deps, &usage_map, &main_usage);
    proof {
        assert(usage_map_of(root_deps@, old_segs, usage_map@));
    }
    if migratable.len() == 0 {
        let mut all: Vec<bool> = Vec::new();
        let mut i: usize = 0;
        while i < root.len()
            invariant
                i <= root@.len(),
                all@ == Seq::new(i as nat, |k: int| true),
            decreases root@.len() - i,
        {
            all.push(true);
            proof {
                assert(all@ =~= Seq::new((i + 1) as nat, |k: int| true));
            }
            i += 1;
        }
        proof {
            assert(migration_applied(
                root_deps@,
                migratable@,
                root@,
                main@,
                export_locals@,
                old_segs,
                segments@,
                all@,
            ));
        }
        return all;
    }
    migrate_segments(&root_deps, &migratable, segments);
    let flags = kept_flags(root, export_locals, &migratable);
    let kept = prune_unused_qrls(root, main, flags);
    proof {
        assert(migration_applied(
            root_deps@,
            migratable@,
            root@,
            main@,
            export_locals@,
            old_segs,
            segments@,
            kept@,
        ));
    }
    kept
}

// ---------------------------------------------------------------------------
// Laws
// ---------------------------------------------------------------------------

proof fn lemma_unmoved_drops(names: Seq<Seq<char>>, moved: Set<Seq<char>>, n: Seq<char>)
    ensures
        unmoved(names, moved).contains(n) <==> (names.contains(n) && !moved.contains(n)),
    decreases names.len(),
{
    if names.len() > 0 {
        let p = unmoved(names.drop_last(), moved);
        lemma_unmoved_drops(names.drop_last(), moved, n);
        assert(names =~= names.drop_last().push(names.last()));
        if names.drop_last().contains(n) {
            let a = choose|a: int| 0 <= a < names.drop_last().len() && names.drop_last()[a] == n;
            assert(names[a] == n);
        }
        if names.contains(n) && n != names.last() {
            let a = choose|a: int| 0 <= a < names.len() && names[a] == n;
            assert(names.drop_last()[a] == n);
        }
        if !moved.contains(names.last()) {
            assert(p.push(names.last())[p.len() as int] == names.last());
            if p.contains(n) {
                let a = choose|a: int| 0 <= a < p.len() && p[a] == n;
                assert(p.push(names.last())[a] == n);
            }
            if p.push(names.last()).contains(n) && n != names.last() {
                let a = choose|a: int| 0 <= a < p.len() + 1 && p.push(names.last())[a] == n;
                assert(p[a] == n);
            }
        }
    }
}

/// Law: after a migration a segment keeps exactly those of its identifiers
/// that do not migrate: no migrated name is left among its local or scoped
/// identifiers, and no other name is lost.
pub proof fn lemma_migrated_names_leave_segments(
    old: SegmentRecord,
    new: SegmentRecord,
    code: Option<Seq<Seq<char>>>,
    moved: Set<Seq<char>>,
    n: Seq<char>,
)
    requires
        segment_migrated(old, new, code, moved),
    ensures
        views(new.local_idents@).contains(n) <==> (views(old.local_idents@).contains(n)
            && !moved.contains(n)),
        views(new.scoped_idents@).contains(n) <==> (views(old.scoped_idents@).contains(n)
            && !moved.contains(n)),
{
    lemma_unmoved_drops(views(old.local_idents@), moved, n);
    lemma_unmoved_drops(views(old.scoped_idents@), moved, n);
}

/// Law: removing unused QRL declarations keeps every other statement that was
/// kept, and keeps nothing that was not.
pub proof fn lemma_pruning_removes_only_qrl_declarations(
    root: Seq<RootStmt>,
    main: Seq<MainStmt>,
    kept: Seq<bool>,
    fuel: nat,
    i: int,
)
    requires
        0 <= i < kept.len(),
    ensures
        pruned(root, main, kept, fuel).len() == kept.len(),
        pruned(root, main, kept, fuel)[i] ==> kept[i],
        kept[i] && qrl_decl_name(root[i]) is None ==> pruned(root, main, kept, fuel)[i],
    decreases fuel,
{
    if !(fuel == 0 || prune_step(root, main, kept) == kept) {
        lemma_pruning_removes_only_qrl_declarations(root, main, prune_step(root, main, kept), (fuel - 1) as nat, i);
    }
}

} // verus!
