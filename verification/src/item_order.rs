//! The order of the top-level items of a segment module: each item after the
//! items it names (a topological sort by Kahn's algorithm, ties broken by
//! name), with a fallback for items caught in dependency cycles.

use vstd::prelude::*;

use crate::code_move::{pair_views, word_idents_in, word_idents_spec, views};
use crate::dependency_analysis::ints;
use crate::text::{chars_of, contains_str, find_from, find_spec, lex_less, lex_lt, str_eq};

verus! {

// ---------------------------------------------------------------------------
// The dependency graph of a list of (symbol, code) items
// ---------------------------------------------------------------------------

/// The position of the last item named `name` (the one a name lookup finds).
pub open spec fn last_index(items: Seq<(String, String)>, name: Seq<char>) -> Option<int>
    decreases items.len(),
{
    if items.len() == 0 {
        None
    } else if items.last().0@ == name {
        Some(items.len() - 1)
    } else {
        last_index(items.drop_last(), name)
    }
}

/// Item `j` must come before item `i`: the code of `i` names the symbol of `j`
/// (other than `i`'s own symbol), and `j` is the last item of that name.
pub open spec fn depends(items: Seq<(String, String)>, j: int, i: int) -> bool {
    &&& 0 <= j < items.len()
    &&& 0 <= i < items.len()
    &&& last_index(items, items[j].0@) == Some(j)
    &&& items[j].0@ != items[i].0@
    &&& word_idents_spec(items[i].1@).contains(items[j].0@)
}

/// A set of items that holds every item all of whose dependencies it holds.
pub open spec fn dep_closed(items: Seq<(String, String)>, s: Set<int>) -> bool {
    forall|i: int|
        0 <= i < items.len() && (forall|j: int| #[trigger] depends(items, j, i) ==> s.contains(j))
            ==> #[trigger] s.contains(i)
}

proof fn lemma_last_index(items: Seq<(String, String)>, name: Seq<char>)
    ensures
        last_index(items, name) matches Some(j) ==> 0 <= j < items.len() && items[j].0@ == name,
        last_index(items, name) is None ==> forall|j: int|
            0 <= j < items.len() ==> (#[trigger] items[j]).0@ != name,
    decreases items.len(),
{
    if items.len() > 0 && items.last().0@ != name {
        lemma_last_index(items.drop_last(), name);
        assert forall|j: int| 0 <= j < items.len() - 1 implies items.drop_last()[j] == (
        #[trigger] items[j]) by {}
    }
}

fn find_last(items: &Vec<(String, String)>, name: &str) -> (r: Option<usize>)
    ensures
        match r {
            Some(j) => last_index(items@, name@) == Some(j as int),
            None => last_index(items@, name@) is None,
        },
{
    let mut k = items.len();
    assert(items@.take(items@.len() as int) =~= items@);
    while k > 0
        invariant
            k <= items@.len(),
            last_index(items@, name@) == last_index(items@.take(k as int), name@),
        decreases k,
    {
        let ghost pre = items@.take(k as int);
        assert(pre.drop_last() =~= items@.take(k - 1));
        assert(pre.last() == items@[k - 1]);
        if str_eq(items[k - 1].0.as_str(), name) {
            return Some(k - 1);
        }
        k -= 1;
    }
    None
}

proof fn lemma_push_contains(s: Seq<usize>, x: usize)
    ensures
        forall|y: usize| #[trigger] s.push(x).contains(y) <==> (s.contains(y) || x == y),
{
    assert forall|y: usize| #[trigger] s.push(x).contains(y) <==> (s.contains(y) || x == y) by {
        if s.contains(y) {
            let k = choose|k: int| 0 <= k < s.len() && s[k] == y;
            assert(s.push(x)[k] == y);
        }
        if x == y {
            assert(s.push(x)[s.len() as int] == y);
        }
        if s.push(x).contains(y) {
            let k = choose|k: int| 0 <= k < s.push(x).len() && s.push(x)[k] == y;
            if k < s.len() {
                assert(s[k] == y);
            }
        }
    }
}

fn contains_index(v: &Vec<usize>, x: usize) -> (r: bool)
    ensures
        r == v@.contains(x),
{
    let mut t: usize = 0;
    while t < v.len()
        invariant
            t <= v@.len(),
            forall|k: int| 0 <= k < t ==> v@[k] != x,
        decreases v@.len() - t,
    {
        if v[t] == x {
            return true;
        }
        t += 1;
    }
    false
}

/// The dependencies of item `i`, without repeats.
fn preds_of(items: &Vec<(String, String)>, i: usize) -> (p: Vec<usize>)
    requires
        i < items@.len(),
    ensures
        p@.no_duplicates(),
        forall|j: usize| p@.contains(j) <==> depends(items@, j as int, i as int),
{
    let name = items[i].0.as_str();
    let idents = word_idents_in(items[i].1.as_str());
    let ghost ids = views(idents@);
    let mut p: Vec<usize> = Vec::new();
    let mut q: usize = 0;
    while q < idents.len()
        invariant
            q <= idents@.len(),
            i < items@.len(),
            name@ == items@[i as int].0@,
            ids == views(idents@),
            ids == word_idents_spec(items@[i as int].1@),
            p@.no_duplicates(),
            forall|j: usize|
                p@.contains(j) <==> (depends(items@, j as int, i as int) && exists|t: int|
                    0 <= t < q && #[trigger] ids[t] == items@[j as int].0@),
        decreases idents@.len() - q,
    {
        let id = idents[q].as_str();
        assert(ids[q as int] == id@);
        let ghost before = p@;
        let mut added: Option<usize> = None;
        if !str_eq(id, name) {
            match find_last(items, id) {
                Some(j) => {
                    if !contains_index(&p, j) {
                        p.push(j);
                        added = Some(j);
                    }
                },
                None => {},
            }
        }
        proof {
            lemma_last_index(items@, id@);
            match added {
                Some(j) => {
                    assert(p@ == before.push(j));
                    lemma_push_contains(before, j);
                    assert forall|a: int, b: int| 0 <= a < b < p@.len() implies p@[a] != p@[b] by {
                        if b == p@.len() - 1 {
                            assert(before.contains(p@[a]));
                        }
                    }
                },
                None => {
                    assert(p@ == before);
                },
            }
            assert forall|j: usize|
                p@.contains(j) <==> (depends(items@, j as int, i as int) && exists|t: int|
                    0 <= t < q + 1 && #[trigger] ids[t] == items@[j as int].0@) by {
                let old_ex = exists|t: int| 0 <= t < q && #[trigger] ids[t] == items@[j as int].0@;
                let new_ex = exists|t: int| 0 <= t < q + 1 && #[trigger] ids[t] == items@[j as int].0@;
                if new_ex {
                    let t = choose|t: int| 0 <= t < q + 1 && #[trigger] ids[t] == items@[j as int].0@;
                    if t < q {
                        assert(old_ex);
                    }
                }
                if old_ex {
                    let t = choose|t: int| 0 <= t < q && #[trigger] ids[t] == items@[j as int].0@;
                    assert(0 <= t < q + 1 && ids[t] == items@[j as int].0@);
                }
                if depends(items@, j as int, i as int) && ids[q as int] == items@[j as int].0@ {
                    assert(id@ != name@);
                    assert(last_index(items@, id@) == Some(j as int));
                    if !before.contains(j) {
                        assert(p@.last() == j);
                        assert(p@.contains(j));
                    }
                }
                if p@.contains(j) && !before.contains(j) {
                    assert(added == Some(j));
                    assert(ids[q as int] == items@[j as int].0@);
                }
            }
        }
        q += 1;
    }
    proof {
        assert forall|j: usize| p@.contains(j) <==> depends(items@, j as int, i as int) by {
            if depends(items@, j as int, i as int) {
                let t = choose|t: int| 0 <= t < ids.len() && ids[t] == items@[j as int].0@;
                assert(0 <= t < q && ids[t] == items@[j as int].0@);
            }
        }
    }
    p
}

/// The symbol of item `i`.
pub open spec fn name_of(items: Seq<(String, String)>, i: usize) -> Seq<char> {
    items[i as int].0@
}

/// Where `x` goes into `s` (sorted by symbol): after the last of the first `j`
/// entries whose symbol does not sort after that of `x`.
pub open spec fn insert_pos(items: Seq<(String, String)>, s: Seq<usize>, x: usize, j: int) -> int
    decreases j,
{
    if j > 0 && lex_lt(name_of(items, x), name_of(items, s[j - 1])) {
        insert_pos(items, s, x, j - 1)
    } else {
        j
    }
}

/// The indices `s` stably sorted by the symbols of their items (insertion in
/// order, each after the entries whose symbol does not sort after its own).
pub open spec fn name_sort(items: Seq<(String, String)>, s: Seq<usize>) -> Seq<usize>
    decreases s.len(),
{
    if s.len() == 0 {
        Seq::empty()
    } else {
        let r = name_sort(items, s.drop_last());
        r.insert(insert_pos(items, r, s.last(), r.len() as int), s.last())
    }
}

proof fn lemma_insert_pos_range(items: Seq<(String, String)>, s: Seq<usize>, x: usize, j: int)
    requires
        0 <= j,
    ensures
        0 <= insert_pos(items, s, x, j) <= j,
    decreases j,
{
    if j > 0 && lex_lt(name_of(items, x), name_of(items, s[j - 1])) {
        lemma_insert_pos_range(items, s, x, j - 1);
    }
}

/// The indices `idx`, stably sorted by the symbol of their item.
fn sort_by_name(items: &Vec<(String, String)>, idx: Vec<usize>) -> (r: Vec<usize>)
    requires
        forall|k: int| 0 <= k < idx@.len() ==> (#[trigger] idx@[k]) < items@.len(),
    ensures
        r@.to_multiset() == idx@.to_multiset(),
        r@ == name_sort(items@, idx@),
{
    broadcast use vstd::seq_lib::group_to_multiset_ensures;

    let mut r: Vec<usize> = Vec::new();
    let mut k: usize = 0;
    while k < idx.len()
        invariant
            k <= idx@.len(),
            forall|q: int| 0 <= q < idx@.len() ==> (#[trigger] idx@[q]) < items@.len(),
            forall|q: int| 0 <= q < r@.len() ==> (#[trigger] r@[q]) < items@.len(),
            r@.to_multiset() == idx@.take(k as int).to_multiset(),
            r@ == name_sort(items@, idx@.take(k as int)),
        decreases idx@.len() - k,
    {
        let x = idx[k];
        let mut j = r.len();
        while j > 0 && lex_less(items[x].0.as_str(), items[r[j - 1]].0.as_str())
            invariant
                j <= r@.len(),
                x < items@.len(),
                forall|q: int| 0 <= q < r@.len() ==> (#[trigger] r@[q]) < items@.len(),
                insert_pos(items@, r@, x, r@.len() as int) == insert_pos(items@, r@, x, j as int),
            decreases j,
        {
            j -= 1;
        }
        let ghost before = r@;
        proof {
            assert(idx@.take(k + 1).drop_last() =~= idx@.take(k as int));
            assert(idx@.take(k + 1).last() == x);
            assert(insert_pos(items@, before, x, j as int) == j);
        }
        r.insert(j, x);
        proof {
            vstd::seq_lib::to_multiset_insert(before, j as int, x);
            assert(idx@.take(k + 1) =~= idx@.take(k as int).push(x));
            vstd::seq_lib::to_multiset_build(idx@.take(k as int), x);
            assert forall|q: int| 0 <= q < r@.len() implies (#[trigger] r@[q]) < items@.len() by {
                assert(r@ =~= before.subrange(0, j as int).push(x) + before.subrange(
                    j as int,
                    before.len() as int,
                ));
                if q < j {
                    assert(r@[q] == before[q]);
                } else if q > j {
                    assert(r@[q] == before[q - 1]);
                }
            }
        }
        k += 1;
    }
    assert(idx@.take(idx@.len() as int) =~= idx@);
    r
}

/// The number of `true` entries.
pub open spec fn count_true(s: Seq<bool>) -> nat
    decreases s.len(),
{
    if s.len() == 0 {
        0
    } else {
        count_true(s.drop_last()) + if s.last() {
            1nat
        } else {
            0nat
        }
    }
}

pub(crate) proof fn lemma_count_true_bound(s: Seq<bool>)
    ensures
        count_true(s) <= s.len(),
    decreases s.len(),
{
    if s.len() > 0 {
        lemma_count_true_bound(s.drop_last());
    }
}

proof fn lemma_count_true_set(s: Seq<bool>, i: int)
    requires
        0 <= i < s.len(),
        !s[i],
    ensures
        count_true(s.update(i, true)) == count_true(s) + 1,
    decreases s.len(),
{
    if i < s.len() - 1 {
        assert(s.update(i, true).drop_last() =~= s.drop_last().update(i, true));
        lemma_count_true_set(s.drop_last(), i);
    } else {
        assert(s.update(i, true).drop_last() =~= s.drop_last());
    }
}

fn all_visited(p: &Vec<usize>, visited: &Vec<bool>) -> (r: bool)
    requires
        forall|k: int| 0 <= k < p@.len() ==> (#[trigger] p@[k]) < visited@.len(),
    ensures
        r == forall|k: int| 0 <= k < p@.len() ==> visited@[#[trigger] p@[k] as int],
{
    let mut t: usize = 0;
    while t < p.len()
        invariant
            t <= p@.len(),
            forall|k: int| 0 <= k < p@.len() ==> (#[trigger] p@[k]) < visited@.len(),
            forall|k: int| 0 <= k < t ==> visited@[#[trigger] p@[k] as int],
        decreases p@.len() - t,
    {
        if !visited[p[t]] {
            return false;
        }
        t += 1;
    }
    true
}

/// The view of item `i`.
pub open spec fn item_view(items: Seq<(String, String)>, i: int) -> (Seq<char>, Seq<char>) {
    (items[i].0@, items[i].1@)
}

/// The views of the items at the positions `order`.
pub open spec fn items_at(items: Seq<(String, String)>, order: Seq<int>) -> Seq<(Seq<char>, Seq<char>)> {
    order.map_values(|i: int| item_view(items, i))
}

/// Every dependency of an item listed in `order` is listed before it.
pub open spec fn topological(items: Seq<(String, String)>, order: Seq<int>) -> bool {
    forall|a: int, b: int|
        0 <= a < order.len() && 0 <= b < order.len() && #[trigger] depends(items, order[a], order[b])
            ==> a < b
}

/// The state of the sort after some items were emitted in `order`.
#[verifier::opaque]
spec fn bfs_state(
    items: Seq<(String, String)>,
    preds: Seq<Vec<usize>>,
    visited: Seq<bool>,
    order: Seq<int>,
    sorted: Seq<(String, String)>,
) -> bool {
    let n = items.len();
    &&& preds.len() == n
    &&& visited.len() == n
    &&& forall|k: int, j: usize|
        0 <= k < n ==> (#[trigger] preds[k]@.contains(j) <==> depends(items, j as int, k))
    &&& forall|k: int, q: int| 0 <= k < n && 0 <= q < preds[k]@.len() ==> (#[trigger] preds[k]@[q]) < n
    &&& order.no_duplicates()
    &&& forall|x: int| #[trigger] order.contains(x) <==> (0 <= x < n && visited[x])
    &&& order.len() == count_true(visited)
    &&& forall|a: int, j: int| 0 <= a < order.len() && #[trigger] depends(items, j, order[a]) ==> order.contains(j)
    &&& topological(items, order)
    &&& forall|s: Set<int>| dep_closed(items, s) ==> forall|x: int| #[trigger] order.contains(x) ==> s.contains(x)
    &&& pair_views(sorted) == items_at(items, order)
}

/// The items as visited by a flag list.
pub open spec fn visited_set(visited: Seq<bool>) -> Set<int> {
    Set::new(|x: int| 0 <= x < visited.len() && visited[x])
}

/// Emitting `idx` frees item `x`: `x` is not emitted, depends on `idx`, and
/// all its dependencies are emitted.
pub open spec fn freed(items: Seq<(String, String)>, visited: Seq<bool>, idx: int, x: int) -> bool {
    &&& !visited[x]
    &&& depends(items, idx, x)
    &&& forall|j: int| #[trigger] depends(items, j, x) ==> visited[j]
}

/// The items before `t` that emitting `idx` frees, in order.
pub open spec fn freed_upto(items: Seq<(String, String)>, visited: Seq<bool>, idx: int, t: int) -> Seq<usize>
    decreases t,
{
    if t <= 0 {
        Seq::empty()
    } else {
        let p = freed_upto(items, visited, idx, t - 1);
        if freed(items, visited, idx, t - 1) {
            p.push((t - 1) as usize)
        } else {
            p
        }
    }
}

/// Item `x` depends on no item.
pub open spec fn is_source(items: Seq<(String, String)>, x: int) -> bool {
    forall|j: int| !(#[trigger] depends(items, j, x))
}

/// The items before `t` that depend on no item, in order.
pub open spec fn sources_upto(items: Seq<(String, String)>, t: int) -> Seq<usize>
    decreases t,
{
    if t <= 0 {
        Seq::empty()
    } else {
        let p = sources_upto(items, t - 1);
        if is_source(items, t - 1) {
            p.push((t - 1) as usize)
        } else {
            p
        }
    }
}

proof fn lemma_freed_upto(items: Seq<(String, String)>, visited: Seq<bool>, idx: int, t: int)
    requires
        0 <= t <= usize::MAX + 1,
    ensures
        forall|a: int, b: int| 0 <= a < b < freed_upto(items, visited, idx, t).len()
            ==> freed_upto(items, visited, idx, t)[a] < freed_upto(items, visited, idx, t)[b],
        forall|y: usize| #[trigger] freed_upto(items, visited, idx, t).contains(y) <==> (y < t
            && freed(items, visited, idx, y as int)),
    decreases t,
{
    if t > 0 {
        lemma_freed_upto(items, visited, idx, t - 1);
        let p = freed_upto(items, visited, idx, t - 1);
        if freed(items, visited, idx, t - 1) {
            let r = p.push((t - 1) as usize);
            assert forall|y: usize| #[trigger] r.contains(y) <==> (y < t && freed(items, visited, idx, y as int)) by {
                if y < t && freed(items, visited, idx, y as int) && y != t - 1 {
                    assert(p.contains(y));
                    let a = choose|a: int| 0 <= a < p.len() && p[a] == y;
                    assert(r[a] == y);
                }
                if r.contains(y) && y != t - 1 {
                    let a = choose|a: int| 0 <= a < r.len() && r[a] == y;
                    assert(p[a] == y);
                    assert(p.contains(y));
                }
                if y == t - 1 {
                    assert(r[r.len() - 1] == y);
                }
            }
            assert forall|a: int, b: int| 0 <= a < b < r.len() implies r[a] < r[b] by {
                if b == r.len() - 1 {
                    assert(p.contains(p[a]));
                }
            }
        }
    }
}

proof fn lemma_sources_increasing(items: Seq<(String, String)>, t: int, a: int, b: int)
    requires
        0 <= t <= usize::MAX + 1,
        0 <= a < b < sources_upto(items, t).len(),
    ensures
        sources_upto(items, t)[a] < sources_upto(items, t)[b],
    decreases t,
{
    if t > 0 {
        let p = sources_upto(items, t - 1);
        lemma_sources_upto(items, t - 1);
        if is_source(items, t - 1) && b == p.len() {
            assert(p.contains(p[a]));
        } else {
            lemma_sources_increasing(items, t - 1, a, b);
        }
    }
}

proof fn lemma_sources_upto(items: Seq<(String, String)>, t: int)
    requires
        0 <= t <= usize::MAX + 1,
    ensures
        forall|y: usize| #[trigger] sources_upto(items, t).contains(y) <==> (y < t && is_source(
            items,
            y as int,
        )),
    decreases t,
{
    if t > 0 {
        lemma_sources_upto(items, t - 1);
        let p = sources_upto(items, t - 1);
        if is_source(items, t - 1) {
            let r = p.push((t - 1) as usize);
            assert forall|y: usize| #[trigger] r.contains(y) <==> (y < t && is_source(items, y as int)) by {
                if y < t && is_source(items, y as int) && y != t - 1 {
                    assert(p.contains(y));
                    let a = choose|a: int| 0 <= a < p.len() && p[a] == y;
                    assert(r[a] == y);
                }
                if r.contains(y) && y != t - 1 {
                    let a = choose|a: int| 0 <= a < r.len() && r[a] == y;
                    assert(p[a] == y);
                    assert(p.contains(y));
                }
                if y == t - 1 {
                    assert(r[r.len() - 1] == y);
                }
            }
        }
    }
}

/// Emit item `idx`, all of whose dependencies were emitted.
fn emit_item(
    items: &Vec<(String, String)>,
    visited: &mut Vec<bool>,
    sorted: &mut Vec<(String, String)>,
    idx: usize,
    Ghost(preds): Ghost<Seq<Vec<usize>>>,
    Ghost(order): Ghost<Seq<int>>,
) -> (new_order: Ghost<Seq<int>>)
    requires
        bfs_state(items@, preds, old(visited)@, order, old(sorted)@),
        idx < items@.len(),
        !old(visited)@[idx as int],
        forall|j: int| #[trigger] depends(items@, j, idx as int) ==> old(visited)@[j],
    ensures
        final(visited)@ == old(visited)@.update(idx as int, true),
        new_order@ == order.push(idx as int),
        bfs_state(items@, preds, final(visited)@, new_order@, final(sorted)@),
{
    proof {
        reveal(bfs_state);
    }
    let ghost n = items@.len();
    let ghost old_visited = visited@;
    let ghost old_sorted = sorted@;
    visited.set(idx, true);
    let ghost new_order = order.push(idx as int);
    proof {
        lemma_count_true_set(old_visited, idx as int);
    }
    let entry = (crate::copy_string(&items[idx].0), crate::copy_string(&items[idx].1));
    sorted.push(entry);
    proof {
        assert(pair_views(sorted@) =~= pair_views(old_sorted).push(
            (items@[idx as int].0@, items@[idx as int].1@),
        ));
        assert(items_at(items@, new_order) =~= items_at(items@, order).push(
            item_view(items@, idx as int),
        ));
        assert(!order.contains(idx as int));
        assert forall|x: int| #[trigger] new_order.contains(x) <==> (0 <= x < n && visited@[x]) by {
            if new_order.contains(x) && x != idx {
                let a = choose|a: int| 0 <= a < new_order.len() && new_order[a] == x;
                assert(order[a] == x);
                assert(order.contains(x));
            }
            if 0 <= x < n && visited@[x] && x != idx {
                assert(old_visited[x]);
                assert(order.contains(x));
                let a = choose|a: int| 0 <= a < order.len() && order[a] == x;
                assert(new_order[a] == x);
            }
            if x == idx {
                assert(new_order[new_order.len() - 1] == x);
            }
        }
        assert forall|a: int, b: int| 0 <= a < b < new_order.len() implies new_order[a]
            != new_order[b] by {
            if b == new_order.len() - 1 {
                assert(order[a] == new_order[a]);
                assert(order.contains(new_order[a]));
            } else {
                assert(order[a] == new_order[a] && order[b] == new_order[b]);
            }
        }
        assert forall|a: int, j: int|
            0 <= a < new_order.len() && #[trigger] depends(
                items@,
                j,
                new_order[a],
            ) implies new_order.contains(j) by {
            if a < new_order.len() - 1 {
                assert(order[a] == new_order[a]);
                assert(order.contains(j));
                let c = choose|c: int| 0 <= c < order.len() && order[c] == j;
                assert(new_order[c] == j);
            } else {
                assert(old_visited[j]);
                assert(order.contains(j));
                let c = choose|c: int| 0 <= c < order.len() && order[c] == j;
                assert(new_order[c] == j);
            }
        }
        assert forall|a: int, b: int|
            0 <= a < new_order.len() && 0 <= b < new_order.len() && #[trigger] depends(
                items@,
                new_order[a],
                new_order[b],
            ) implies a < b by {
            if a == new_order.len() - 1 && b < new_order.len() - 1 {
                assert(order[b] == new_order[b]);
                assert(order.contains(idx as int));
            } else if a < new_order.len() - 1 && b < new_order.len() - 1 {
                assert(order[a] == new_order[a] && order[b] == new_order[b]);
            }
        }
        assert forall|st: Set<int>| dep_closed(items@, st) implies forall|x: int|
            #[trigger] new_order.contains(x) ==> st.contains(x) by {
            assert forall|x: int| #[trigger] new_order.contains(x) implies st.contains(x) by {
                if x == idx {
                    assert forall|j: int| #[trigger] depends(items@, j, x) implies st.contains(j) by {
                        assert(old_visited[j]);
                        assert(order.contains(j));
                    }
                } else {
                    let a = choose|a: int| 0 <= a < new_order.len() && new_order[a] == x;
                    assert(order[a] == x);
                    assert(order.contains(x));
                }
            }
        }
    }
    Ghost(new_order)
}

/// The items that emitting `idx` frees: not emitted, depending on `idx`, with
/// all their dependencies emitted; sorted by symbol.
fn freed_by(
    items: &Vec<(String, String)>,
    preds: &Vec<Vec<usize>>,
    visited: &Vec<bool>,
    idx: usize,
) -> (newly: Vec<usize>)
    requires
        preds@.len() == items@.len(),
        visited@.len() == items@.len(),
        forall|k: int, j: usize|
            0 <= k < items@.len() ==> (#[trigger] preds@[k]@.contains(j) <==> depends(
                items@,
                j as int,
                k,
            )),
        forall|k: int, q: int|
            0 <= k < items@.len() && 0 <= q < preds@[k]@.len() ==> (#[trigger] preds@[k]@[q])
                < items@.len(),
    ensures
        forall|q: int| 0 <= q < newly@.len() ==> (#[trigger] newly@[q]) < items@.len(),
        forall|x: usize|
            #[trigger] newly@.contains(x) ==> forall|j: int|
                #[trigger] depends(items@, j, x as int) ==> visited@[j],
        forall|x: int|
            0 <= x < items@.len() && !visited@[x] && depends(items@, idx as int, x) && (forall|j: int|
                #[trigger] depends(items@, j, x) ==> visited@[j]) ==> newly@.contains(x as usize),
        forall|x: usize| #[trigger] newly@.contains(x) ==> freed(items@, visited@, idx as int, x as int),
        newly@.no_duplicates(),
        newly@ == name_sort(items@, freed_upto(items@, visited@, idx as int, items@.len() as int)),
{
    broadcast use vstd::seq_lib::group_to_multiset_ensures;

    let n = items.len();
    let mut newly: Vec<usize> = Vec::new();
    let mut t: usize = 0;
    while t < n
        invariant
            n == items@.len(),
            t <= n,
            preds@.len() == n,
            visited@.len() == n,
            forall|k: int, j: usize|
                0 <= k < n ==> (#[trigger] preds@[k]@.contains(j) <==> depends(items@, j as int, k)),
            forall|k: int, q: int|
                0 <= k < n && 0 <= q < preds@[k]@.len() ==> (#[trigger] preds@[k]@[q]) < n,
            forall|q: int| 0 <= q < newly@.len() ==> (#[trigger] newly@[q]) < n,
            forall|x: usize|
                #[trigger] newly@.contains(x) ==> forall|j: int|
                    #[trigger] depends(items@, j, x as int) ==> visited@[j],
            forall|x: int|
                0 <= x < t && !visited@[x] && depends(items@, idx as int, x) && (forall|j: int|
                    #[trigger] depends(items@, j, x) ==> visited@[j]) ==> newly@.contains(x as usize),
            newly@ == freed_upto(items@, visited@, idx as int, t as int),
        decreases n - t,
    {
        let ghost before = newly@;
        if !visited[t] && contains_index(&preds[t], idx) && all_visited(&preds[t], visited) {
            newly.push(t);
            proof {
                lemma_push_contains(before, t);
                assert(preds@[t as int]@.contains(idx));
                assert forall|j: int| #[trigger] depends(items@, j, t as int) implies visited@[j] by {
                    assert(preds@[t as int]@.contains(j as usize));
                    let q = choose|q: int|
                        0 <= q < preds@[t as int]@.len() && preds@[t as int]@[q] == j as usize;
                    assert(visited@[preds@[t as int]@[q] as int]);
                }
            }
        } else {
            proof {
                if !visited@[t as int] && depends(items@, idx as int, t as int) && (forall|j: int|
                    #[trigger] depends(items@, j, t as int) ==> visited@[j]) {
                    assert(preds@[t as int]@.contains(idx));
                    assert forall|q: int| 0 <= q < preds@[t as int]@.len() implies visited@[
                        #[trigger] preds@[t as int]@[q] as int] by {
                        let j = preds@[t as int]@[q];
                        assert(preds@[t as int]@.contains(j));
                        assert(depends(items@, j as int, t as int));
                    }
                }
            }
        }
        t += 1;
    }
    let sorted = sort_by_name(items, newly);
    proof {
        lemma_freed_upto(items@, visited@, idx as int, n as int);
        assert forall|x: usize| #[trigger] sorted@.contains(x) implies freed(items@, visited@, idx as int, x as int) by {
            assert(sorted@.to_multiset().count(x) > 0);
            assert(newly@.contains(x));
        }
        newly@.lemma_multiset_has_no_duplicates();
        sorted@.lemma_multiset_has_no_duplicates_conv();
        assert forall|q: int| 0 <= q < sorted@.len() implies (#[trigger] sorted@[q]) < n by {
            assert(sorted@.to_multiset().count(sorted@[q]) > 0);
            assert(newly@.contains(sorted@[q]));
        }
        assert forall|x: usize| #[trigger] sorted@.contains(x) implies forall|j: int|
            #[trigger] depends(items@, j, x as int) ==> visited@[j] by {
            assert(sorted@.to_multiset().count(x) > 0);
            assert(newly@.contains(x));
        }
        assert forall|x: int|
            0 <= x < n && !visited@[x] && depends(items@, idx as int, x) && (forall|j: int|
                #[trigger] depends(items@, j, x) ==> visited@[j]) implies sorted@.contains(
            x as usize) by {
            assert(newly@.contains(x as usize));
            assert(newly@.to_multiset().count(x as usize) > 0);
        }
    }
    sorted
}

/// The invariant of the queue of Kahn's algorithm from position `head` on.
#[verifier::opaque]
spec fn queue_ok(
    items: Seq<(String, String)>,
    visited: Seq<bool>,
    queue: Seq<usize>,
    head: int,
) -> bool {
    let n = items.len();
    &&& 0 <= head <= queue.len()
    &&& forall|q: int| 0 <= q < queue.len() ==> (#[trigger] queue[q]) < n
    &&& forall|q: int, j: int|
        head <= q < queue.len() && #[trigger] depends(items, j, queue[q] as int) ==> visited[j]
    &&& forall|x: int|
        0 <= x < n && !visited[x] && (forall|j: int| #[trigger] depends(items, j, x) ==> visited[j])
            ==> exists|q: int| head <= q < queue.len() && queue[q] == x
}

/// After emitting `idx` (popped at `head - 1`) and appending the items it
/// frees, the queue invariant holds again.
proof fn lemma_queue_after_emit(
    items: Seq<(String, String)>,
    old_visited: Seq<bool>,
    visited: Seq<bool>,
    q0: Seq<usize>,
    newly: Seq<usize>,
    head: int,
    idx: usize,
)
    requires
        queue_ok(items, old_visited, q0, head - 1),
        1 <= head <= q0.len(),
        q0[head - 1] == idx,
        idx < items.len(),
        items.len() <= usize::MAX,
        old_visited.len() == items.len(),
        visited == old_visited.update(idx as int, true),
        forall|q: int| 0 <= q < newly.len() ==> (#[trigger] newly[q]) < items.len(),
        forall|x: usize|
            #[trigger] newly.contains(x) ==> forall|j: int|
                #[trigger] depends(items, j, x as int) ==> visited[j],
        forall|x: int|
            0 <= x < items.len() && !visited[x] && depends(items, idx as int, x) && (forall|j: int|
                #[trigger] depends(items, j, x) ==> visited[j]) ==> newly.contains(x as usize),
    ensures
        queue_ok(items, visited, q0 + newly, head),
{
    reveal(queue_ok);
    let n = items.len();
    let queue = q0 + newly;
    assert forall|q: int| 0 <= q < queue.len() implies (#[trigger] queue[q]) < n by {
        if q >= q0.len() {
            assert(queue[q] == newly[q - q0.len()]);
        } else {
            assert(queue[q] == q0[q]);
        }
    }
    assert forall|q: int, j: int|
        head <= q < queue.len() && #[trigger] depends(items, j, queue[q] as int) implies visited[j] by {
        if q >= q0.len() {
            assert(queue[q] == newly[q - q0.len()]);
            assert(newly.contains(queue[q]));
        } else {
            assert(queue[q] == q0[q]);
            assert(old_visited[j]);
        }
    }
    assert forall|x: int|
        0 <= x < n && !visited[x] && (forall|j: int| #[trigger] depends(items, j, x) ==> visited[j])
            implies exists|q: int| head <= q < queue.len() && queue[q] == x by {
        if depends(items, idx as int, x) {
            assert(newly.contains(x as usize));
            let p = choose|p: int| 0 <= p < newly.len() && newly[p] == x as usize;
            assert(newly[p] as int == x);
            assert(queue[q0.len() + p] == newly[p]);
        } else {
            assert forall|j: int| #[trigger] depends(items, j, x) implies old_visited[j] by {
                assert(visited[j]);
                assert(j != idx);
            }
            assert(x != idx);
            let q = choose|q: int| head - 1 <= q < q0.len() && q0[q] == x;
            assert(q != head - 1);
            assert(queue[q] == x);
        }
    }
}

/// The dependencies of every item, and a flag list with no item emitted.
fn build_preds(items: &Vec<(String, String)>) -> (r: (Vec<Vec<usize>>, Vec<bool>))
    ensures
        r.0@.len() == items@.len(),
        r.1@.len() == items@.len(),
        forall|k: int| 0 <= k < items@.len() ==> !(#[trigger] r.1@[k]),
        count_true(r.1@) == 0,
        forall|k: int, j: usize|
            0 <= k < items@.len() ==> (#[trigger] r.0@[k]@.contains(j) <==> depends(
                items@,
                j as int,
                k,
            )),
        forall|k: int, q: int|
            0 <= k < items@.len() && 0 <= q < r.0@[k]@.len() ==> (#[trigger] r.0@[k]@[q])
                < items@.len(),
{
    let n = items.len();
    let mut preds: Vec<Vec<usize>> = Vec::new();
    let mut visited: Vec<bool> = Vec::new();
    let mut i: usize = 0;
    while i < n
        invariant
            n == items@.len(),
            i <= n,
            preds@.len() == i,
            visited@.len() == i,
            forall|k: int| 0 <= k < i ==> !(#[trigger] visited@[k]),
            forall|k: int, j: usize|
                0 <= k < i ==> (#[trigger] preds@[k]@.contains(j) <==> depends(items@, j as int, k)),
        decreases n - i,
    {
        let p = preds_of(items, i);
        preds.push(p);
        visited.push(false);
        i += 1;
    }
    proof {
        assert forall|k: int, q: int| 0 <= k < n && 0 <= q < preds@[k]@.len() implies (
        #[trigger] preds@[k]@[q]) < n by {
            let j = preds@[k]@[q];
            assert(preds@[k]@.contains(j));
        }
        lemma_count_true_zero(visited@);
    }
    (preds, visited)
}

/// The items without dependencies, sorted by symbol.
fn initial_queue(items: &Vec<(String, String)>, preds: &Vec<Vec<usize>>, visited: &Vec<bool>) -> (queue: Vec<usize>)
    requires
        preds@.len() == items@.len(),
        visited@.len() == items@.len(),
        forall|k: int| 0 <= k < items@.len() ==> !(#[trigger] visited@[k]),
        forall|k: int, j: usize|
            0 <= k < items@.len() ==> (#[trigger] preds@[k]@.contains(j) <==> depends(
                items@,
                j as int,
                k,
            )),
    ensures
        queue_ok(items@, visited@, queue@, 0),
        queue@.no_duplicates(),
        queue@ == name_sort(items@, sources_upto(items@, items@.len() as int)),
{
    broadcast use vstd::seq_lib::group_to_multiset_ensures;

    let n = items.len();
    let mut zero: Vec<usize> = Vec::new();
    let mut k: usize = 0;
    while k < n
        invariant
            n == items@.len(),
            k <= n,
            preds@.len() == n,
            forall|q: int| 0 <= q < zero@.len() ==> (#[trigger] zero@[q]) < n,
            forall|x: int| 0 <= x < k && (#[trigger] preds@[x])@.len() == 0 ==> zero@.contains(x as usize),
            forall|q: int| 0 <= q < zero@.len() ==> (#[trigger] preds@[zero@[q] as int])@.len() == 0,
            forall|kk: int, j: usize|
                0 <= kk < n ==> (#[trigger] preds@[kk]@.contains(j) <==> depends(items@, j as int, kk)),
            zero@ == sources_upto(items@, k as int),
        decreases n - k,
    {
        let ghost before = zero@;
        proof {
            if preds@[k as int]@.len() > 0 {
                let j = preds@[k as int]@[0];
                assert(preds@[k as int]@.contains(j));
                assert(depends(items@, j as int, k as int));
                assert(!is_source(items@, k as int));
            } else {
                assert forall|j: int| !(#[trigger] depends(items@, j, k as int)) by {
                    if depends(items@, j, k as int) {
                        assert(preds@[k as int]@.contains(j as usize));
                    }
                }
            }
        }
        if preds[k].len() == 0 {
            zero.push(k);
            proof {
                lemma_push_contains(before, k);
            }
        }
        k += 1;
    }
    let queue = sort_by_name(items, zero);
    proof {
        lemma_sources_upto(items@, n as int);
        assert forall|a: int, b: int| 0 <= a < b < zero@.len() implies zero@[a] != zero@[b] by {
            lemma_sources_increasing(items@, n as int, a, b);
        }
        zero@.lemma_multiset_has_no_duplicates();
        queue@.lemma_multiset_has_no_duplicates_conv();
        reveal(queue_ok);
        assert forall|q: int| 0 <= q < queue@.len() implies (#[trigger] queue@[q]) < n && preds@[queue@[q] as int]@.len() == 0 by {
            assert(queue@.to_multiset().count(queue@[q]) > 0);
            assert(zero@.contains(queue@[q]));
        }
        assert forall|q: int, j: int| 0 <= q < queue@.len() && #[trigger] depends(items@, j, queue@[q] as int) implies visited@[j] by {
            assert(preds@[queue@[q] as int]@.contains(j as usize));
        }
        assert forall|x: int| 0 <= x < n && !visited@[x] && (forall|j: int| #[trigger] depends(items@, j, x) ==> visited@[j]) implies exists|q: int| 0 <= q < queue@.len() && queue@[q] == x by {
            if preds@[x]@.len() > 0 {
                let j = preds@[x]@[0];
                assert(preds@[x]@.contains(j));
                assert(depends(items@, j as int, x));
            }
            assert(zero@.contains(x as usize));
            assert(zero@.to_multiset().count(x as usize) > 0);
            assert(queue@.contains(x as usize));
        }
    }
    queue
}

/// The flags of the items among `seen`.
pub open spec fn seen_flags(n: int, seen: Seq<usize>) -> Seq<bool> {
    Seq::new(n as nat, |x: int| seen.contains(x as usize))
}

/// The queue of Kahn's algorithm once `k` items were taken from its front.
/// It starts with the items that depend on no item, sorted by symbol; taking
/// an item appends the items that emitting it frees, sorted by symbol.
pub open spec fn kahn_queue_after(items: Seq<(String, String)>, k: nat) -> Seq<usize>
    decreases k,
{
    if k == 0 {
        name_sort(items, sources_upto(items, items.len() as int))
    } else {
        let q = kahn_queue_after(items, (k - 1) as nat);
        if k - 1 < q.len() {
            q + name_sort(
                items,
                freed_upto(
                    items,
                    seen_flags(items.len() as int, q.take(k as int)),
                    q[k - 1] as int,
                    items.len() as int,
                ),
            )
        } else {
            q
        }
    }
}

/// The whole queue of Kahn's algorithm, in the order its items are emitted.
pub open spec fn kahn_queue(items: Seq<(String, String)>) -> Seq<usize> {
    kahn_queue_after(items, items.len())
}

proof fn lemma_kahn_queue_stable(items: Seq<(String, String)>, k: nat, m: nat)
    requires
        k <= m,
        kahn_queue_after(items, k).len() <= k,
    ensures
        kahn_queue_after(items, m) == kahn_queue_after(items, k),
    decreases m - k,
{
    if k < m {
        assert(kahn_queue_after(items, k + 1) == kahn_queue_after(items, k));
        lemma_kahn_queue_stable(items, k + 1, m);
    }
}

/// What the emitted items satisfy: no item twice, exactly the flagged ones,
/// each after its dependencies, each in every dependency-closed set, and
/// `sorted` holding their texts in order.
pub open spec fn emitted(
    items: Seq<(String, String)>,
    visited: Seq<bool>,
    order: Seq<int>,
    sorted: Seq<(String, String)>,
) -> bool {
    &&& visited.len() == items.len()
    &&& order.no_duplicates()
    &&& forall|x: int| #[trigger] order.contains(x) <==> (0 <= x < items.len() && visited[x])
    &&& topological(items, order)
    &&& forall|s: Set<int>| dep_closed(items, s) ==> forall|x: int| #[trigger] order.contains(x) ==> s.contains(x)
    &&& pair_views(sorted) == items_at(items, order)
}

proof fn lemma_bfs_emitted(
    items: Seq<(String, String)>,
    preds: Seq<Vec<usize>>,
    visited: Seq<bool>,
    order: Seq<int>,
    sorted: Seq<(String, String)>,
)
    requires
        bfs_state(items, preds, visited, order, sorted),
    ensures
        emitted(items, visited, order, sorted),
        order.len() == count_true(visited),
{
    reveal(bfs_state);
}

proof fn lemma_bfs_initial(
    items: Seq<(String, String)>,
    preds: Seq<Vec<usize>>,
    visited: Seq<bool>,
    sorted: Seq<(String, String)>,
)
    requires
        preds.len() == items.len(),
        visited.len() == items.len(),
        forall|k: int| 0 <= k < items.len() ==> !(#[trigger] visited[k]),
        count_true(visited) == 0,
        sorted.len() == 0,
        forall|k: int, j: usize|
            0 <= k < items.len() ==> (#[trigger] preds[k]@.contains(j) <==> depends(items, j as int, k)),
        forall|k: int, q: int|
            0 <= k < items.len() && 0 <= q < preds[k]@.len() ==> (#[trigger] preds[k]@[q]) < items.len(),
    ensures
        bfs_state(items, preds, visited, Seq::empty(), sorted),
{
    reveal(bfs_state);
    assert(pair_views(sorted) =~= items_at(items, Seq::<int>::empty()));
}

proof fn lemma_queue_entry(items: Seq<(String, String)>, visited: Seq<bool>, queue: Seq<usize>, head: int)
    requires
        queue_ok(items, visited, queue, head),
        0 <= head < queue.len(),
    ensures
        queue[head] < items.len(),
        forall|j: int| #[trigger] depends(items, j, queue[head] as int) ==> visited[j],
{
    reveal(queue_ok);
}

proof fn lemma_queue_done(items: Seq<(String, String)>, visited: Seq<bool>, queue: Seq<usize>)
    requires
        queue_ok(items, visited, queue, queue.len() as int),
        visited.len() == items.len(),
    ensures
        dep_closed(items, visited_set(visited)),
{
    reveal(queue_ok);
    assert forall|x: int|
        0 <= x < items.len() && (forall|j: int| #[trigger] depends(items, j, x) ==> visited_set(visited).contains(j))
            implies #[trigger] visited_set(visited).contains(x) by {
        if !visited[x] {
            assert forall|j: int| #[trigger] depends(items, j, x) implies visited[j] by {
                assert(visited_set(visited).contains(j));
            }
        }
    }
}

/// Kahn's algorithm: the items whose dependencies can all be emitted first,
/// emitted so; the queue starts with the items without dependencies sorted by
/// symbol, and the items freed by each emitted item join it sorted by symbol.
fn kahn_order(items: &Vec<(String, String)>) -> (r: (Vec<(String, String)>, Vec<bool>, Ghost<Seq<int>>))
    ensures
        emitted(items@, r.1@, r.2@, r.0@),
        dep_closed(items@, visited_set(r.1@)),
        r.2@ == ints(kahn_queue(items@)),
{
    let n = items.len();
    let (preds, mut visited) = build_preds(items);
    let mut queue = initial_queue(items, &preds, &visited);
    let mut head: usize = 0;
    let mut sorted: Vec<(String, String)> = Vec::new();
    let ghost mut order: Seq<int> = Seq::empty();
    proof {
        lemma_bfs_initial(items@, preds@, visited@, sorted@);
    }
    while head < queue.len()
        invariant
            n == items@.len(),
            preds@.len() == n,
            visited@.len() == n,
            forall|k: int, j: usize|
                0 <= k < n ==> (#[trigger] preds@[k]@.contains(j) <==> depends(items@, j as int, k)),
            forall|k: int, q: int|
                0 <= k < n && 0 <= q < preds@[k]@.len() ==> (#[trigger] preds@[k]@[q]) < n,
            bfs_state(items@, preds@, visited@, order, sorted@),
            head <= queue@.len(),
            queue_ok(items@, visited@, queue@, head as int),
            queue@.no_duplicates(),
            queue@ == kahn_queue_after(items@, head as nat),
            visited@ == seen_flags(n as int, queue@.take(head as int)),
            order == ints(queue@.take(head as int)),
        decreases n - count_true(visited@), queue@.len() - head,
    {
        proof {
            lemma_count_true_bound(visited@);
            lemma_queue_entry(items@, visited@, queue@, head as int);
            lemma_bfs_emitted(items@, preds@, visited@, order, sorted@);
        }
        let idx = queue[head];
        let ghost h = head as int;
        let ghost qh = queue@;
        head += 1;
        proof {
            if qh.take(h).contains(idx) {
                let a = choose|a: int| 0 <= a < h && #[trigger] qh.take(h)[a] == idx;
                assert(qh[a] == qh[h]);
            }
            assert(!visited@[idx as int]);
        }
        if !visited[idx] {
            let ghost old_visited = visited@;
            let Ghost(new_order) = emit_item(items, &mut visited, &mut sorted, idx, Ghost(preds@), Ghost(order));
            proof {
                order = new_order;
                assert(qh.take(h + 1) =~= qh.take(h).push(idx));
                assert(visited@ =~= seen_flags(n as int, qh.take(h + 1))) by {
                    assert forall|x: int| 0 <= x < n implies visited@[x] == seen_flags(n as int, qh.take(h + 1))[x] by {
                        if x == idx {
                            assert(qh.take(h + 1)[h] == idx);
                        } else {
                            if qh.take(h + 1).contains(x as usize) {
                                let a = choose|a: int| 0 <= a < h + 1 && #[trigger] qh.take(h + 1)[a] == x as usize;
                                assert(a != h);
                                assert(qh.take(h)[a] == x as usize);
                            }
                            if qh.take(h).contains(x as usize) {
                                let a = choose|a: int| 0 <= a < h && #[trigger] qh.take(h)[a] == x as usize;
                                assert(qh.take(h + 1)[a] == x as usize);
                            }
                        }
                    }
                }
                assert(ints(qh.take(h + 1)) =~= ints(qh.take(h)).push(idx as int));
            }
            let newly = freed_by(items, &preds, &visited, idx);
            let ghost q0 = queue@;
            let mut u: usize = 0;
            while u < newly.len()
                invariant
                    u <= newly@.len(),
                    queue@ == q0 + newly@.take(u as int),
                decreases newly@.len() - u,
            {
                queue.push(newly[u]);
                assert(newly@.take(u + 1) =~= newly@.take(u as int).push(newly@[u as int]));
                u += 1;
            }
            proof {
                assert(newly@.take(newly@.len() as int) =~= newly@);
                lemma_queue_after_emit(items@, old_visited, visited@, q0, newly@, head as int, idx);
                lemma_count_true_set(old_visited, idx as int);
                lemma_count_true_bound(visited@);
                assert(queue@.take(head as int) =~= q0.take(head as int));
                assert(kahn_queue_after(items@, head as nat) == queue@);
                assert forall|a: int, b: int| 0 <= a < q0.len() && 0 <= b < newly@.len() implies q0[a] != newly@[b] by {
                    assert(newly@.contains(newly@[b]));
                    if q0[a] == newly@[b] {
                        if a < head {
                            assert(qh.take(h + 1)[a] == q0[a]);
                            assert(qh.take(h + 1).contains(q0[a]));
                            assert(visited@[q0[a] as int]);
                        } else {
                            lemma_queue_pending(items@, old_visited, q0, h, a, idx as int);
                        }
                    }
                }
                vstd::seq_lib::lemma_no_dup_in_concat(q0, newly@);
            }
        } else {
            proof {
                assert(false);
            }
        }
    }
    proof {
        lemma_queue_done(items@, visited@, queue@);
        lemma_bfs_emitted(items@, preds@, visited@, order, sorted@);
        lemma_count_true_bound(visited@);
        assert(queue@.take(head as int) =~= queue@);
        lemma_kahn_queue_stable(items@, head as nat, n as nat);
    }
    (sorted, visited, Ghost(order))
}

/// A pending entry of the queue depends only on emitted items.
proof fn lemma_queue_pending(
    items: Seq<(String, String)>,
    visited: Seq<bool>,
    queue: Seq<usize>,
    head: int,
    a: int,
    j: int,
)
    requires
        queue_ok(items, visited, queue, head),
        head <= a < queue.len(),
        depends(items, j, queue[a] as int),
    ensures
        visited[j],
{
    reveal(queue_ok);
}

proof fn lemma_count_true_zero(s: Seq<bool>)
    requires
        forall|k: int| 0 <= k < s.len() ==> !#[trigger] s[k],
    ensures
        count_true(s) == 0,
    decreases s.len(),
{
    if s.len() > 0 {
        lemma_count_true_zero(s.drop_last());
    }
}

// ---------------------------------------------------------------------------
// Items caught in dependency cycles
// ---------------------------------------------------------------------------

/// Code that calls `qrl(` or `inlinedQrl(`.
pub open spec fn has_qrl_call(code: Seq<char>) -> bool {
    find_spec(code, "qrl("@, 0) is Some || find_spec(code, "inlinedQrl("@, 0) is Some
}

/// `let {sym};`
pub open spec fn let_decl(sym: Seq<char>) -> Seq<char> {
    "let "@ + sym + ";"@
}

/// `{sym} = {code};`
pub open spec fn late_assign(sym: Seq<char>, code: Seq<char>) -> Seq<char> {
    sym + " = "@ + code + ";"@
}

/// For the items before `k` that were not emitted and call a QRL, a `let`
/// declaration each, the later items first.
pub open spec fn cycle_lets(items: Seq<(String, String)>, done: Set<int>, k: int) -> Seq<
    (Seq<char>, Seq<char>),
>
    decreases k,
{
    if k <= 0 {
        Seq::empty()
    } else {
        let prev = cycle_lets(items, done, k - 1);
        let it = items[k - 1];
        if !done.contains(k - 1) && has_qrl_call(it.1@) {
            seq![(it.0@, let_decl(it.0@))] + prev
        } else {
            prev
        }
    }
}

/// The items before `k` that were not emitted, in order: an assignment for
/// those that call a QRL, the item itself for the others.
pub open spec fn cycle_tail(items: Seq<(String, String)>, done: Set<int>, k: int) -> Seq<
    (Seq<char>, Seq<char>),
>
    decreases k,
{
    if k <= 0 {
        Seq::empty()
    } else {
        let prev = cycle_tail(items, done, k - 1);
        let it = items[k - 1];
        if done.contains(k - 1) {
            prev
        } else if has_qrl_call(it.1@) {
            prev.push((it.0@, late_assign(it.0@, it.1@)))
        } else {
            prev.push((it.0@, it.1@))
        }
    }
}

/// The items in the order Kahn's algorithm emits them.
pub open spec fn kahn_emitted(items: Seq<(String, String)>) -> Seq<int> {
    ints(kahn_queue(items))
}

/// The items that Kahn's algorithm emits.
pub open spec fn kahn_done(items: Seq<(String, String)>) -> Set<int> {
    kahn_emitted(items).to_set()
}

/// `r` orders `items` by dependency: `done` are the items that can be
/// emitted after all their dependencies (the least dependency-closed set), and
/// `order` lists them so; they stand between the `let` declarations and the
/// remaining items of the dependency cycles.
pub open spec fn dependency_order(
    items: Seq<(String, String)>,
    done: Set<int>,
    order: Seq<int>,
    r: Seq<(Seq<char>, Seq<char>)>,
) -> bool {
    &&& dep_closed(items, done)
    &&& forall|s: Set<int>| dep_closed(items, s) ==> done.subset_of(s)
    &&& order.no_duplicates()
    &&& forall|x: int| #[trigger] order.contains(x) <==> done.contains(x)
    &&& topological(items, order)
    &&& r == cycle_lets(items, done, items.len() as int) + items_at(items, order) + cycle_tail(
        items,
        done,
        items.len() as int,
    )
}

fn has_qrl(code: &str) -> (r: bool)
    ensures
        r == has_qrl_call(code@),
{
    let v = chars_of(code);
    let p1 = chars_of("qrl(");
    let p2 = chars_of("inlinedQrl(");
    find_from(&v, &p1, 0).is_some() || find_from(&v, &p2, 0).is_some()
}

/// Sort `(symbol, code)` items so that each comes after the items it names
/// (Kahn's algorithm, ties broken by symbol: the exact order is
/// `kahn_emitted`). Items left in dependency cycles
/// follow in their input order; those that call a QRL become an assignment,
/// with a `let` declaration moved to the front.
pub fn order_items_by_dependency(items: Vec<(String, String)>) -> (r: Vec<(String, String)>)
    ensures
        dependency_order(items@, kahn_done(items@), kahn_emitted(items@), pair_views(r@)),
{
    let n = items.len();
    let (mut sorted, visited, Ghost(order)) = kahn_order(&items);
    let ghost done = visited_set(visited@);
    let ghost mid = items_at(items@, order);
    assert(pair_views(sorted@) =~= Seq::empty() + mid + Seq::empty());
    let mut i: usize = 0;
    while i < n
        invariant
            n == items@.len(),
            i <= n,
            visited@.len() == n,
            done == visited_set(visited@),
            pair_views(sorted@) == cycle_lets(items@, done, i as int) + mid + cycle_tail(
                items@,
                done,
                i as int,
            ),
        decreases n - i,
    {
        let ghost before = pair_views(sorted@);
        let ghost lets = cycle_lets(items@, done, i as int);
        let ghost tail = cycle_tail(items@, done, i as int);
        if !visited[i] {
            let sym = items[i].0.as_str();
            let code = items[i].1.as_str();
            assert(!done.contains(i as int));
            if has_qrl(code) {
                let mut decl = String::from_str("let ");
                decl.append(sym);
                decl.append(";");
                let mut assign = String::from_str(sym);
                assign.append(" = ");
                assign.append(code);
                assign.append(";");
                sorted.insert(0, (String::from_str(sym), decl));
                sorted.push((String::from_str(sym), assign));
                proof {
                    let first = (sym@, let_decl(sym@));
                    let last = (sym@, late_assign(sym@, code@));
                    assert(pair_views(sorted@) =~= seq![first] + before + seq![last]);
                    assert(cycle_lets(items@, done, i + 1) == seq![first] + lets);
                    assert(cycle_tail(items@, done, i + 1) == tail.push(last));
                    assert(pair_views(sorted@) =~= cycle_lets(items@, done, i + 1) + mid
                        + cycle_tail(items@, done, i + 1));
                }
            } else {
                sorted.push((String::from_str(sym), String::from_str(code)));
                proof {
                    let last = (sym@, code@);
                    assert(pair_views(sorted@) =~= before.push(last));
                    assert(cycle_lets(items@, done, i + 1) == lets);
                    assert(cycle_tail(items@, done, i + 1) == tail.push(last));
                    assert(pair_views(sorted@) =~= cycle_lets(items@, done, i + 1) + mid
                        + cycle_tail(items@, done, i + 1));
                }
            }
        } else {
            assert(done.contains(i as int));
        }
        i += 1;
    }
    proof {
        assert forall|x: int| #[trigger] order.contains(x) <==> done.contains(x) by {}
        assert forall|s: Set<int>| dep_closed(items@, s) implies done.subset_of(s) by {
            assert forall|x: int| done.contains(x) implies s.contains(x) by {
                assert(order.contains(x));
            }
        }
        assert(done =~= kahn_done(items@));
        assert(dependency_order(items@, kahn_done(items@), kahn_emitted(items@), pair_views(sorted@)));
    }
    sorted
}

// ---------------------------------------------------------------------------
// Hoisted constants needed by a segment module
// ---------------------------------------------------------------------------

/// A `const` hoisted out of a segment body (a QRL declaration).
#[derive(Debug, Clone)]
pub struct HoistedConst {
    /// The binding name, e.g. `q_renderHeader1_jMxQsjbyDss`.
    pub name: String,
    /// The code of the right-hand side, e.g. `qrl(...)`.
    pub rhs_code: String,
    /// Deduplication key (the same as `name`).
    pub symbol_name: String,
    /// Whether the constant belongs to the root module.
    pub is_root_level: bool,
}

/// A set of names that holds `seed` and, for every constant it names, the
/// identifiers of that constant's right-hand side.
pub open spec fn needed_closed(consts: Seq<HoistedConst>, seed: Seq<Seq<char>>, s: Set<Seq<char>>) -> bool {
    &&& forall|m: Seq<char>| #[trigger] seed.contains(m) ==> s.contains(m)
    &&& forall|k: int, m: Seq<char>|
        0 <= k < consts.len() && s.contains(consts[k].name@) && #[trigger] word_idents_spec(
            consts[k].rhs_code@,
        ).contains(m) ==> s.contains(m)
}

/// The constants whose names are in `s`, in order.
pub open spec fn consts_named(consts: Seq<HoistedConst>, s: Set<Seq<char>>) -> Seq<HoistedConst>
    decreases consts.len(),
{
    if consts.len() == 0 {
        Seq::empty()
    } else {
        let prev = consts_named(consts.drop_last(), s);
        if s.contains(consts.last().name@) {
            prev.push(consts.last())
        } else {
            prev
        }
    }
}

/// Two constants with the same texts and flag.
pub open spec fn same_const(a: HoistedConst, b: HoistedConst) -> bool {
    &&& a.name@ == b.name@
    &&& a.rhs_code@ == b.rhs_code@
    &&& a.symbol_name@ == b.symbol_name@
    &&& a.is_root_level == b.is_root_level
}

fn copy_const(c: &HoistedConst) -> (r: HoistedConst)
    ensures
        same_const(r, *c),
{
    HoistedConst {
        name: crate::copy_string(&c.name),
        rhs_code: crate::copy_string(&c.rhs_code),
        symbol_name: crate::copy_string(&c.symbol_name),
        is_root_level: c.is_root_level,
    }
}

/// The hoisted constants that a segment module needs: those named by the
/// `seed` identifiers, and transitively those named by the right-hand sides of
/// needed constants; in their input order.
pub fn collect_needed_extra_top_items(extra_top_items: &Vec<HoistedConst>, seed_idents: &Vec<String>) -> (r:
    Vec<HoistedConst>)
    ensures
        exists|needed: Set<Seq<char>>|
            {
                &&& needed_closed(extra_top_items@, views(seed_idents@), needed)
                &&& forall|s: Set<Seq<char>>|
                    needed_closed(extra_top_items@, views(seed_idents@), s) ==> needed.subset_of(s)
                &&& r@.len() == consts_named(extra_top_items@, needed).len()
                &&& forall|k: int|
                    0 <= k < r@.len() ==> same_const(
                        #[trigger] r@[k],
                        consts_named(extra_top_items@, needed)[k],
                    )
            },
{
    let ghost consts = extra_top_items@;
    let ghost seed = views(seed_idents@);
    let n = extra_top_items.len();
    let mut needed: Vec<String> = Vec::new();
    let mut i: usize = 0;
    while i < seed_idents.len()
        invariant
            i <= seed_idents@.len(),
            seed == views(seed_idents@),
            views(needed@) == seed.take(i as int),
        decreases seed_idents@.len() - i,
    {
        let ghost before = views(needed@);
        needed.push(crate::copy_string(&seed_idents[i]));
        assert(views(needed@) =~= before.push(seed[i as int]));
        assert(seed.take(i + 1) =~= seed.take(i as int).push(seed[i as int]));
        i += 1;
    }
    assert(seed.take(seed.len() as int) =~= seed);
    let mut done: Vec<bool> = Vec::new();
    let mut k: usize = 0;
    while k < n
        invariant
            k <= n,
            n == consts.len(),
            done@.len() == k,
            forall|q: int| 0 <= q < k ==> !(#[trigger] done@[q]),
        decreases n - k,
    {
        done.push(false);
        k += 1;
    }
    proof {
        lemma_count_true_zero(done@);
    }
    loop
        invariant
            n == consts.len(),
            consts == extra_top_items@,
            seed == views(seed_idents@),
            done@.len() == n,
            forall|m: Seq<char>| #[trigger] seed.contains(m) ==> views(needed@).contains(m),
            forall|q: int, m: Seq<char>|
                0 <= q < n && done@[q] && #[trigger] word_idents_spec(consts[q].rhs_code@).contains(m)
                    ==> views(needed@).contains(m),
            forall|q: int| 0 <= q < n && #[trigger] done@[q] ==> views(needed@).contains(consts[q].name@),
            forall|s: Set<Seq<char>>|
                needed_closed(consts, seed, s) ==> forall|m: Seq<char>|
                    #[trigger] views(needed@).contains(m) ==> s.contains(m),
        ensures
            done@.len() == n,
            forall|m: Seq<char>| #[trigger] seed.contains(m) ==> views(needed@).contains(m),
            forall|q: int, m: Seq<char>|
                0 <= q < n && done@[q] && #[trigger] word_idents_spec(consts[q].rhs_code@).contains(m)
                    ==> views(needed@).contains(m),
            forall|q: int| 0 <= q < n && views(needed@).contains(consts[q].name@) ==> #[trigger] done@[q],
            forall|s: Set<Seq<char>>|
                needed_closed(consts, seed, s) ==> forall|m: Seq<char>|
                    #[trigger] views(needed@).contains(m) ==> s.contains(m),
        decreases n - count_true(done@),
    {
        proof {
            lemma_count_true_bound(done@);
        }
        let mut found: Option<usize> = None;
        let mut q: usize = 0;
        while q < n
            invariant
                q <= n,
                n == consts.len(),
                consts == extra_top_items@,
                done@.len() == n,
                found matches Some(f) ==> f < n && !done@[f as int] && views(needed@).contains(consts[f as int].name@),
                found is None ==> forall|p: int| 0 <= p < q && views(needed@).contains(consts[p].name@) ==> #[trigger] done@[p],
            decreases n - q,
        {
            if found.is_none() && !done[q] && contains_str(&needed, extra_top_items[q].name.as_str()) {
                found = Some(q);
            }
            q += 1;
        }
        match found {
            None => {
                break;
            },
            Some(f) => {
                let ghost old_done = done@;
                done.set(f, true);
                proof {
                    lemma_count_true_set(old_done, f as int);
                    lemma_count_true_bound(done@);
                }
                let idents = word_idents_in(extra_top_items[f].rhs_code.as_str());
                let ghost ids = views(idents@);
                let ghost needed0 = views(needed@);
                let mut t: usize = 0;
                while t < idents.len()
                    invariant
                        t <= idents@.len(),
                        ids == views(idents@),
                        forall|m: Seq<char>| #[trigger] needed0.contains(m) ==> views(needed@).contains(m),
                        forall|p: int| 0 <= p < t ==> views(needed@).contains(#[trigger] ids[p]),
                        forall|m: Seq<char>| #[trigger] views(needed@).contains(m) ==> needed0.contains(m) || ids.contains(m),
                    decreases idents@.len() - t,
                {
                    let ghost before = views(needed@);
                    if !contains_str(&needed, idents[t].as_str()) {
                        needed.push(crate::copy_string(&idents[t]));
                        proof {
                            assert(views(needed@) =~= before.push(ids[t as int]));
                            assert forall|m: Seq<char>| #[trigger] views(needed@).contains(m) implies before.contains(m) || m == ids[t as int] by {
                                let j = choose|j: int| 0 <= j < views(needed@).len() && views(needed@)[j] == m;
                                if j < before.len() {
                                    assert(before[j] == m);
                                }
                            }
                            assert forall|m: Seq<char>| #[trigger] before.contains(m) implies views(needed@).contains(m) by {
                                let j = choose|j: int| 0 <= j < before.len() && before[j] == m;
                                assert(views(needed@)[j] == m);
                            }
                            assert(views(needed@)[before.len() as int] == ids[t as int]);
                        }
                    } else {
                        assert(views(idents@)[t as int] == idents@[t as int]@);
                    }
                    assert(ids.contains(ids[t as int]));
                    t += 1;
                }
                proof {
                    assert(ids == word_idents_spec(consts[f as int].rhs_code@));
                    assert forall|s: Set<Seq<char>>| needed_closed(consts, seed, s) implies forall|m: Seq<char>|
                        #[trigger] views(needed@).contains(m) ==> s.contains(m) by {
                        assert forall|m: Seq<char>| #[trigger] views(needed@).contains(m) implies s.contains(m) by {
                            if !needed0.contains(m) {
                                assert(ids.contains(m));
                                assert(needed0.contains(consts[f as int].name@));
                                assert(s.contains(consts[f as int].name@));
                            }
                        }
                    }
                    assert forall|p: int, m: Seq<char>|
                        0 <= p < n && done@[p] && #[trigger] word_idents_spec(consts[p].rhs_code@).contains(m)
                            implies views(needed@).contains(m) by {
                        if p == f {
                            let j = choose|j: int| 0 <= j < ids.len() && ids[j] == m;
                            assert(views(needed@).contains(ids[j]));
                        } else {
                            assert(old_done[p]);
                        }
                    }
                    assert forall|p: int| 0 <= p < n && #[trigger] done@[p] implies views(needed@).contains(consts[p].name@) by {
                        if p != f {
                            assert(old_done[p]);
                        }
                    }
                }
            },
        }
    }
    let ghost nset = Set::new(|m: Seq<char>| views(needed@).contains(m));
    proof {
        assert(needed_closed(consts, seed, nset)) by {
            assert forall|q: int, m: Seq<char>|
                0 <= q < consts.len() && nset.contains(consts[q].name@) && #[trigger] word_idents_spec(
                    consts[q].rhs_code@,
                ).contains(m) implies nset.contains(m) by {
                assert(done@[q]);
            }
        }
    }
    let mut r: Vec<HoistedConst> = Vec::new();
    let mut k: usize = 0;
    while k < n
        invariant
            k <= n,
            n == consts.len(),
            consts == extra_top_items@,
            nset == Set::new(|m: Seq<char>| views(needed@).contains(m)),
            r@.len() == consts_named(consts.take(k as int), nset).len(),
            forall|p: int| 0 <= p < r@.len() ==> same_const(#[trigger] r@[p], consts_named(consts.take(k as int), nset)[p]),
        decreases n - k,
    {
        let ghost before = r@;
        assert(consts.take(k + 1).drop_last() =~= consts.take(k as int));
        if contains_str(&needed, extra_top_items[k].name.as_str()) {
            r.push(copy_const(&extra_top_items[k]));
            assert(nset.contains(consts[k as int].name@));
            assert forall|p: int| 0 <= p < r@.len() implies same_const(#[trigger] r@[p], consts_named(consts.take(k + 1), nset)[p]) by {
                if p < before.len() {
                    assert(r@[p] == before[p]);
                }
            }
        } else {
            assert(!nset.contains(consts[k as int].name@));
        }
        k += 1;
    }
    proof {
        assert(consts.take(n as int) =~= consts);
        assert forall|s: Set<Seq<char>>| needed_closed(consts, seed, s) implies nset.subset_of(s) by {
            assert forall|m: Seq<char>| nset.contains(m) implies s.contains(m) by {
                assert(views(needed@).contains(m));
            }
        }
    }
    r
}

} // verus!
