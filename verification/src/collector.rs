//! The index of a module's imports, exports and top-level declarations,
//! built in one pass over its top-level statements.
//!
//! The statements come as `ModuleStmt`: the parts of each parsed statement
//! that the index reads.

use indexmap::IndexMap;
use vstd::prelude::*;

use crate::code_move::views;
use crate::text::str_eq;

verus! {

// ---------------------------------------------------------------------------
// The insertion-ordered maps of the `indexmap` crate
// ---------------------------------------------------------------------------

#[verifier::external_type_specification]
#[verifier::external_body]
#[verifier::reject_recursive_types(K)]
#[verifier::reject_recursive_types(V)]
#[verifier::reject_recursive_types(S)]
pub struct ExIndexMap<K, V, S>(IndexMap<K, V, S>);

/// `s` with `v` entered under `k`: in the place of the first entry of that
/// key, or last when there is none.
pub open spec fn keyed_insert<K, V>(s: Seq<(K, V)>, k: K, v: V) -> Seq<(K, V)> {
    match key_pos(s, k) {
        Some(i) => s.update(i, (k, v)),
        None => s.push((k, v)),
    }
}

/// The position of the first entry of key `k`.
pub open spec fn key_pos<K, V>(s: Seq<(K, V)>, k: K) -> Option<int>
    decreases s.len(),
{
    if s.len() == 0 {
        None
    } else {
        match key_pos(s.drop_last(), k) {
            Some(i) => Some(i),
            None => if s.last().0 == k {
                Some(s.len() - 1)
            } else {
                None
            },
        }
    }
}

/// No key occurs twice.
pub open spec fn unique_keys<K, V>(s: Seq<(K, V)>) -> bool {
    forall|i: int, j: int| 0 <= i < j < s.len() ==> (#[trigger] s[i]).0 != (#[trigger] s[j]).0
}

/// `s` with `k` added last, unless it holds `k` already.
pub open spec fn set_insert<K>(s: Seq<K>, k: K) -> Seq<K> {
    if s.contains(k) {
        s
    } else {
        s.push(k)
    }
}

/// An import binding in mathematical form: source, specifier, kind, synthetic.
pub type ImportView = (Seq<char>, Seq<char>, ImportKind, bool);

/// The entries of an import map, in order: local name and import.
pub uninterp spec fn import_entries(m: IndexMap<String, Import>) -> Seq<(Seq<char>, ImportView)>;

/// The keys of an export map, in order.
pub uninterp spec fn export_keys(m: IndexMap<String, ExportInfo>) -> Seq<Seq<char>>;

/// The entries of a map of top-level declarations, in order: name and the
/// declaration's span.
pub uninterp spec fn root_entries(m: IndexMap<String, (u32, u32)>) -> Seq<(Seq<char>, (u32, u32))>;

/// `IndexMap::with_capacity` for imports: an empty map.
#[verifier::external_body]
fn new_import_map() -> (m: IndexMap<String, Import>)
    ensures
        import_entries(m) == Seq::<(Seq<char>, ImportView)>::empty(),
{
    IndexMap::with_capacity(16)
}

/// `IndexMap::insert` for imports: an existing key keeps its place and takes
/// the new value; a new key goes last.
#[verifier::external_body]
fn import_map_insert(m: &mut IndexMap<String, Import>, k: String, v: Import)
    ensures
        import_entries(*final(m)) == keyed_insert(import_entries(*old(m)), k@, import_view(v)),
{
    m.insert(k, v);
}

/// `IndexMap::get` for imports: the value of the entry of key `k`.
#[verifier::external_body]
fn import_map_get<'a>(m: &'a IndexMap<String, Import>, k: &str) -> (r: Option<&'a Import>)
    ensures
        match r {
            Some(i) => key_pos(import_entries(*m), k@) matches Some(p) && import_view(*i)
                == import_entries(*m)[p].1,
            None => key_pos(import_entries(*m), k@) is None,
        },
{
    m.get(k)
}

/// `IndexMap::contains_key` for imports.
#[verifier::external_body]
fn import_map_has(m: &IndexMap<String, Import>, k: &str) -> (r: bool)
    ensures
        r == (key_pos(import_entries(*m), k@) is Some),
{
    m.contains_key(k)
}

/// `IndexMap::iter` for imports: every entry, in order, as an owned copy.
#[verifier::external_body]
fn import_map_entries(m: &IndexMap<String, Import>) -> (r: Vec<(String, Import)>)
    ensures
        r@.map_values(|e: (String, Import)| (e.0@, import_view(e.1))) == import_entries(*m),
{
    m.iter().map(|(k, v)| (k.clone(), v.clone())).collect()
}

/// `IndexMap::with_capacity` for exports: an empty map.
#[verifier::external_body]
fn new_export_map() -> (m: IndexMap<String, ExportInfo>)
    ensures
        export_keys(m) == Seq::<Seq<char>>::empty(),
{
    IndexMap::with_capacity(16)
}

/// `IndexMap::insert` for exports: a new key goes last; an existing one stays
/// in its place.
#[verifier::external_body]
fn export_map_insert(m: &mut IndexMap<String, ExportInfo>, k: String)
    ensures
        export_keys(*final(m)) == set_insert(export_keys(*old(m)), k@),
{
    m.insert(k, ExportInfo {});
}

/// `IndexMap::contains_key` for exports.
#[verifier::external_body]
fn export_map_has(m: &IndexMap<String, ExportInfo>, k: &str) -> (r: bool)
    ensures
        r == export_keys(*m).contains(k@),
{
    m.contains_key(k)
}

/// `IndexMap::keys` for exports, in order.
#[verifier::external_body]
fn export_map_keys(m: &IndexMap<String, ExportInfo>) -> (r: Vec<String>)
    ensures
        views(r@) == export_keys(*m),
{
    m.keys().cloned().collect()
}

/// `IndexMap::with_capacity` for top-level declarations: an empty map.
#[verifier::external_body]
fn new_root_map() -> (m: IndexMap<String, (u32, u32)>)
    ensures
        root_entries(m) == Seq::<(Seq<char>, (u32, u32))>::empty(),
{
    IndexMap::with_capacity(16)
}

/// `IndexMap::insert` for top-level declarations: an existing key keeps its
/// place and takes the new span; a new key goes last.
#[verifier::external_body]
fn root_map_insert(m: &mut IndexMap<String, (u32, u32)>, k: String, span: (u32, u32))
    ensures
        root_entries(*final(m)) == keyed_insert(root_entries(*old(m)), k@, span),
{
    m.insert(k, span);
}

/// `IndexMap::contains_key` for top-level declarations.
#[verifier::external_body]
fn root_map_has(m: &IndexMap<String, (u32, u32)>, k: &str) -> (r: bool)
    ensures
        r == (key_pos(root_entries(*m), k@) is Some),
{
    m.contains_key(k)
}

// ---------------------------------------------------------------------------
// The index
// ---------------------------------------------------------------------------

/// How an import binding was imported.
#[derive(Debug, Clone, Copy, PartialEq, Eq, Structural)]
pub enum ImportKind {
    /// `import { foo } from "bar"`
    Named,
    /// `import Foo from "bar"`
    Default,
    /// `import * as ns from "bar"`
    Namespace,
}

/// An import binding.
#[derive(Debug, Clone)]
pub struct Import {
    /// The module specifier (`"bar"` in `import { foo } from "bar"`).
    pub source: String,
    /// The imported name: `"default"` for a default import, `"*"` for a
    /// namespace import.
    pub specifier: String,
    /// How the binding was imported.
    pub kind: ImportKind,
    /// The import was added by the optimizer, not read from the source.
    pub synthetic: bool,
}

/// Export metadata (none yet).
#[derive(Debug, Clone, Default)]
pub struct ExportInfo {}

/// The view of an import.
pub open spec fn import_view(i: Import) -> ImportView {
    (i.source@, i.specifier@, i.kind, i.synthetic)
}

fn copy_import(i: &Import) -> (r: Import)
    ensures
        import_view(r) == import_view(*i),
{
    Import {
        source: crate::copy_string(&i.source),
        specifier: crate::copy_string(&i.specifier),
        kind: i.kind,
        synthetic: i.synthetic,
    }
}

/// The imports, exports and top-level declarations of a module.
pub struct GlobalCollect {
    /// The imports added by the optimizer, in order.
    pub synthetic: Vec<(String, Import)>,
    /// Every import binding, by local name.
    pub imports: IndexMap<String, Import>,
    /// Every exported name.
    pub exports: IndexMap<String, ExportInfo>,
    /// The top-level declarations that are not imports, by name, with the
    /// span of the binding.
    pub root: IndexMap<String, (u32, u32)>,
    /// The local name of each `(specifier, source)` import.
    rev_imports: Vec<((String, String), String)>,
}

/// The index in mathematical form.
pub struct CollectView {
    pub synthetic: Seq<(Seq<char>, ImportView)>,
    pub imports: Seq<(Seq<char>, ImportView)>,
    pub exports: Seq<Seq<char>>,
    pub root: Seq<(Seq<char>, (u32, u32))>,
    pub rev: Seq<((Seq<char>, Seq<char>), Seq<char>)>,
}

/// The reverse map of imports in mathematical form.
pub open spec fn rev_view(v: Seq<((String, String), String)>) -> Seq<((Seq<char>, Seq<char>), Seq<char>)> {
    v.map_values(|e: ((String, String), String)| ((e.0.0@, e.0.1@), e.1@))
}

impl GlobalCollect {
    pub closed spec fn view_of(&self) -> CollectView {
        CollectView {
            synthetic: self.synthetic@.map_values(|e: (String, Import)| (e.0@, import_view(e.1))),
            imports: import_entries(self.imports),
            exports: export_keys(self.exports),
            root: root_entries(self.root),
            rev: rev_view(self.rev_imports@),
        }
    }

    /// No map holds a key twice.
    pub closed spec fn wf(&self) -> bool {
        &&& unique_keys(import_entries(self.imports))
        &&& export_keys(self.exports).no_duplicates()
        &&& unique_keys(root_entries(self.root))
        &&& unique_keys(rev_view(self.rev_imports@))
    }
}

/// The `(specifier, source)` of every import entry whose imported name is
/// `specifier`, in order.
pub open spec fn specifier_matches(imports: Seq<(Seq<char>, ImportView)>, specifier: Seq<char>) -> Seq<
    (Seq<char>, Seq<char>),
>
    decreases imports.len(),
{
    if imports.len() == 0 {
        Seq::empty()
    } else {
        let prev = specifier_matches(imports.drop_last(), specifier);
        let e = imports.last();
        if e.1.1 == specifier {
            prev.push((e.1.1, e.1.0))
        } else {
            prev
        }
    }
}

/// The empty index.
pub open spec fn empty_collect() -> CollectView {
    CollectView {
        synthetic: Seq::empty(),
        imports: Seq::empty(),
        exports: Seq::empty(),
        root: Seq::empty(),
        rev: Seq::empty(),
    }
}

/// The index with an import binding entered: under its local name, and under
/// its `(specifier, source)` in the reverse map.
pub open spec fn with_import(c: CollectView, local: Seq<char>, i: ImportView) -> CollectView {
    CollectView {
        rev: keyed_insert(c.rev, (i.1, i.0), local),
        imports: keyed_insert(c.imports, local, i),
        ..c
    }
}

/// The index with other exports.
pub open spec fn with_exports(c: CollectView, e: Seq<Seq<char>>) -> CollectView {
    CollectView { exports: e, ..c }
}

/// The index with other top-level declarations.
pub open spec fn with_root(c: CollectView, r: Seq<(Seq<char>, (u32, u32))>) -> CollectView {
    CollectView { root: r, ..c }
}

/// The index with other synthetic imports.
pub open spec fn with_synthetic(c: CollectView, syn: Seq<(Seq<char>, ImportView)>) -> CollectView {
    CollectView { synthetic: syn, ..c }
}

/// The local name imported as `(specifier, source)`.
pub open spec fn imported_local(c: CollectView, specifier: Seq<char>, source: Seq<char>) -> Option<Seq<char>> {
    match key_pos(c.rev, (specifier, source)) {
        Some(p) => Some(c.rev[p].1),
        None => None,
    }
}

proof fn lemma_key_pos<K, V>(s: Seq<(K, V)>, k: K)
    ensures
        key_pos(s, k) matches Some(p) ==> 0 <= p < s.len() && s[p].0 == k && forall|q: int|
            0 <= q < p ==> (#[trigger] s[q]).0 != k,
        key_pos(s, k) is None ==> forall|q: int| 0 <= q < s.len() ==> (#[trigger] s[q]).0 != k,
    decreases s.len(),
{
    if s.len() > 0 {
        lemma_key_pos(s.drop_last(), k);
        assert forall|q: int| 0 <= q < s.len() - 1 implies (#[trigger] s[q]) == s.drop_last()[q] by {}
    }
}

/// The local names of the import bindings, in order.
pub open spec fn import_names(c: CollectView) -> Seq<Seq<char>> {
    c.imports.map_values(|e: (Seq<char>, ImportView)| e.0)
}

/// A key has an entry exactly when it is among the keys.
pub proof fn lemma_key_pos_contains<V>(s: Seq<(Seq<char>, V)>, k: Seq<char>)
    ensures
        (key_pos(s, k) is Some) == s.map_values(|e: (Seq<char>, V)| e.0).contains(k),
{
    lemma_key_pos(s, k);
    let ks = s.map_values(|e: (Seq<char>, V)| e.0);
    if key_pos(s, k) is Some {
        let p = key_pos(s, k)->0;
        assert(ks[p] == k);
    }
    if ks.contains(k) {
        let q = choose|q: int| 0 <= q < ks.len() && ks[q] == k;
        assert(s[q].0 == k);
    }
}

proof fn lemma_keyed_insert_unique<K, V>(s: Seq<(K, V)>, k: K, v: V)
    requires
        unique_keys(s),
    ensures
        unique_keys(keyed_insert(s, k, v)),
        keyed_insert(s, k, v).len() == s.len() + if key_pos(s, k) is Some {
            0int
        } else {
            1int
        },
{
    lemma_key_pos(s, k);
    let r = keyed_insert(s, k, v);
    assert forall|i: int, j: int| 0 <= i < j < r.len() implies (#[trigger] r[i]).0 != (#[trigger] r[j]).0 by {
        match key_pos(s, k) {
            Some(p) => {
                if i == p {
                    assert(s[j].0 != s[p].0);
                } else if j == p {
                    assert(s[i].0 != s[p].0);
                }
            },
            None => {
                if j == s.len() {
                    assert(s[i].0 != k);
                }
            },
        }
    }
}

proof fn lemma_set_insert_unique<K>(s: Seq<K>, k: K)
    requires
        s.no_duplicates(),
    ensures
        set_insert(s, k).no_duplicates(),
{
    if !s.contains(k) {
        let r = s.push(k);
        assert forall|i: int, j: int| 0 <= i < r.len() && 0 <= j < r.len() && i != j implies r[i] != r[j] by {
            if j == s.len() {
                assert(r[i] == s[i]);
            } else if i == s.len() {
                assert(r[j] == s[j]);
            }
        }
    }
}

/// The position of the entry of `(specifier, source)` in the reverse map.
fn find_rev(v: &Vec<((String, String), String)>, specifier: &str, source: &str) -> (r: Option<usize>)
    ensures
        r matches Some(i) ==> i < v@.len() && key_pos(rev_view(v@), (specifier@, source@)) == Some(
            i as int,
        ),
        r is None ==> key_pos(rev_view(v@), (specifier@, source@)) is None,
{
    let ghost rv = rev_view(v@);
    let ghost k = (specifier@, source@);
    proof {
        lemma_key_pos(rv, k);
    }
    let mut i: usize = 0;
    while i < v.len()
        invariant
            i <= v@.len(),
            rv == rev_view(v@),
            k == (specifier@, source@),
            key_pos(rv, k) matches Some(p) ==> 0 <= p < rv.len() && rv[p].0 == k && forall|q: int|
                0 <= q < p ==> (#[trigger] rv[q]).0 != k,
            key_pos(rv, k) is None ==> forall|q: int| 0 <= q < rv.len() ==> (#[trigger] rv[q]).0 != k,
            forall|q: int| 0 <= q < i ==> (#[trigger] rv[q]).0 != k,
        decreases v@.len() - i,
    {
        if str_eq(v[i].0.0.as_str(), specifier) && str_eq(v[i].0.1.as_str(), source) {
            proof {
                assert(rv[i as int].0 == k);
                if key_pos(rv, k) is None {
                    assert(rv[i as int].0 != k);
                } else {
                    let p = key_pos(rv, k)->0;
                    if p < i {
                        assert(rv[p].0 != k);
                    } else if p > i {
                        assert(rv[i as int].0 != k);
                    }
                }
            }
            return Some(i);
        }
        i += 1;
    }
    None
}

impl GlobalCollect {
    fn new() -> (r: Self)
        ensures
            r.wf(),
            r.view_of() == empty_collect(),
    {
        let r = GlobalCollect {
            synthetic: Vec::new(),
            imports: new_import_map(),
            exports: new_export_map(),
            root: new_root_map(),
            rev_imports: Vec::new(),
        };
        proof {
            assert(r.view_of().synthetic =~= Seq::empty());
            assert(r.view_of().rev =~= Seq::empty());
        }
        r
    }

    /// An empty index.
    pub fn new_empty() -> (r: Self)
        ensures
            r.wf(),
            r.view_of() == empty_collect(),
    {
        Self::new()
    }

    /// Enter an import binding, under its local name and under its
    /// `(specifier, source)`.
    fn insert_import(&mut self, local: String, import: Import)
        requires
            old(self).wf(),
        ensures
            final(self).wf(),
            final(self).view_of() == with_import(old(self).view_of(), local@, import_view(import)),
    {
        let ghost old_rev = rev_view(self.rev_imports@);
        let ghost k = (import.specifier@, import.source@);
        let found = find_rev(&self.rev_imports, import.specifier.as_str(), import.source.as_str());
        proof {
            lemma_keyed_insert_unique(old_rev, k, local@);
        }
        let key = (crate::copy_string(&import.specifier), crate::copy_string(&import.source));
        let entry = (key, crate::copy_string(&local));
        match found {
            Some(i) => {
                self.rev_imports.set(i, entry);
                proof {
                    assert(rev_view(self.rev_imports@) =~= keyed_insert(old_rev, k, local@));
                }
            },
            None => {
                self.rev_imports.push(entry);
                proof {
                    assert(rev_view(self.rev_imports@) =~= keyed_insert(old_rev, k, local@));
                }
            },
        }
        let ghost old_imports = import_entries(self.imports);
        import_map_insert(&mut self.imports, local, import);
        proof {
            lemma_keyed_insert_unique(old_imports, local@, import_view(import));
        }
    }

    /// The local name of the import of `specifier` from `source`.
    pub fn get_imported_local(&self, specifier: &str, source: &str) -> (r: Option<&str>)
        ensures
            crate::hash::opt_view(r) == imported_local(self.view_of(), specifier@, source@),
    {
        match find_rev(&self.rev_imports, specifier, source) {
            Some(i) => Some(self.rev_imports[i].1.as_str()),
            None => None,
        }
    }

    /// Whether `name` is an import binding.
    pub fn is_import(&self, name: &str) -> (r: bool)
        ensures
            r == (key_pos(self.view_of().imports, name@) is Some),
    {
        import_map_has(&self.imports, name)
    }

    /// The import binding named `name`.
    pub fn get_import(&self, name: &str) -> (r: Option<&Import>)
        ensures
            match r {
                Some(i) => key_pos(self.view_of().imports, name@) matches Some(p) && import_view(*i)
                    == self.view_of().imports[p].1,
                None => key_pos(self.view_of().imports, name@) is None,
            },
    {
        import_map_get(&self.imports, name)
    }

    /// Whether `name` is imported, exported or declared at top level.
    pub fn is_global(&self, name: &str) -> (r: bool)
        ensures
            r == (key_pos(self.view_of().imports, name@) is Some || self.view_of().exports.contains(
                name@,
            ) || key_pos(self.view_of().root, name@) is Some),
    {
        import_map_has(&self.imports, name) || export_map_has(&self.exports, name) || root_map_has(
            &self.root,
            name,
        )
    }

    /// The exported names that are also top-level declarations, in export order.
    pub fn export_local_ids(&self) -> (r: Vec<String>)
        ensures
            views(r@) == self.view_of().exports.filter(
                |n: Seq<char>| key_pos(self.view_of().root, n) is Some,
            ),
    {
        let keys = export_map_keys(&self.exports);
        let ghost ks = views(keys@);
        let ghost root = root_entries(self.root);
        let mut r: Vec<String> = Vec::new();
        let mut i: usize = 0;
        while i < keys.len()
            invariant
                i <= keys@.len(),
                ks == views(keys@),
                root == root_entries(self.root),
                views(r@) == ks.take(i as int).filter(|n: Seq<char>| key_pos(root, n) is Some),
            decreases keys@.len() - i,
        {
            proof {
                reveal(Seq::filter);
                assert(ks.take(i + 1).drop_last() =~= ks.take(i as int));
                assert(ks.take(i + 1).last() == ks[i as int]);
            }
            if root_map_has(&self.root, keys[i].as_str()) {
                let ghost before = views(r@);
                r.push(crate::copy_string(&keys[i]));
                proof {
                    assert(views(r@) =~= before.push(keys@[i as int]@));
                }
            }
            i += 1;
        }
        proof {
            assert(ks.take(keys@.len() as int) =~= ks);
        }
        r
    }

    /// The `(specifier, source)` of every import binding whose imported name
    /// is `specifier`, in import order.
    pub fn imports_with_specifier(&self, specifier: &str) -> (r: Vec<(String, String)>)
        ensures
            crate::code_move::pair_views(r@) == specifier_matches(self.view_of().imports, specifier@),
    {
        let entries = import_map_entries(&self.imports);
        let ghost ev = entries@.map_values(|e: (String, Import)| (e.0@, import_view(e.1)));
        let mut r: Vec<(String, String)> = Vec::new();
        let mut i: usize = 0;
        while i < entries.len()
            invariant
                i <= entries@.len(),
                ev == entries@.map_values(|e: (String, Import)| (e.0@, import_view(e.1))),
                ev == self.view_of().imports,
                crate::code_move::pair_views(r@) == specifier_matches(ev.take(i as int), specifier@),
            decreases entries@.len() - i,
        {
            assert(ev.take(i + 1).drop_last() =~= ev.take(i as int));
            assert(ev.take(i + 1).last() == ev[i as int]);
            if str_eq(entries[i].1.specifier.as_str(), specifier) {
                let ghost before = crate::code_move::pair_views(r@);
                r.push((crate::copy_string(&entries[i].1.specifier), crate::copy_string(&entries[i].1.source)));
                assert(crate::code_move::pair_views(r@) =~= before.push((ev[i as int].1.1, ev[i as int].1.0)));
            }
            i += 1;
        }
        assert(ev.take(entries@.len() as int) =~= ev);
        r
    }

    /// The imports added by the optimizer, in order.
    pub fn synthetic_imports(&self) -> (r: &Vec<(String, Import)>)
        ensures
            r@.map_values(|e: (String, Import)| (e.0@, import_view(e.1))) == self.view_of().synthetic,
    {
        &self.synthetic
    }

    /// Whether `name` is a top-level declaration of the module.
    pub fn is_declared_at_root(&self, name: &str) -> (r: bool)
        ensures
            r == (key_pos(self.view_of().root, name@) is Some),
    {
        root_map_has(&self.root, name)
    }

    /// Whether `sym` is an exported name.
    pub fn has_export_symbol(&self, sym: &str) -> (r: bool)
        ensures
            r == self.view_of().exports.contains(sym@),
    {
        export_map_has(&self.exports, sym)
    }

    /// Add an import binding made by the optimizer, unless `(specifier,
    /// source)` is imported already.
    pub fn add_synthetic_import(&mut self, local: String, import: Import)
        requires
            old(self).wf(),
        ensures
            final(self).wf(),
            imported_local(old(self).view_of(), import.specifier@, import.source@) is Some
                ==> final(self).view_of() == old(self).view_of(),
            imported_local(old(self).view_of(), import.specifier@, import.source@) is None
                ==> final(self).view_of() == with_synthetic(
                with_import(old(self).view_of(), local@, import_view(import)),
                old(self).view_of().synthetic.push((local@, import_view(import))),
            ),
    {
        if self.get_imported_local(import.specifier.as_str(), import.source.as_str()).is_some() {
            return;
        }
        let ghost before = self.view_of();
        self.synthetic.push((crate::copy_string(&local), copy_import(&import)));
        let ghost mid = self.view_of();
        proof {
            assert(mid.synthetic =~= before.synthetic.push((local@, import_view(import))));
        }
        self.insert_import(local, import);
    }
}

// ---------------------------------------------------------------------------
// The collecting pass
// ---------------------------------------------------------------------------

/// A specifier of an import declaration.
#[derive(Debug, Clone)]
pub enum ImportSpec {
    /// `import { imported as local }`
    Named { local: String, imported: String },
    /// `import local from ...`
    Default { local: String },
    /// `import * as local from ...`
    Namespace { local: String },
}

/// A name that a declaration binds, with the span of the binding.
#[derive(Debug)]
pub struct Binding {
    pub name: String,
    pub span: (u32, u32),
}

/// A binding pattern of a declaration.
#[derive(Debug)]
pub enum BindingPattern {
    /// A plain name.
    Identifier(Binding),
    /// `{ a, b: c, ...rest }`: the patterns of the property values, then the rest.
    Object { properties: Vec<BindingPattern>, rest: Option<Box<BindingPattern>> },
    /// `[a, , b, ...rest]`: the patterns of the elements (a hole is `None`), then the rest.
    Array { elements: Vec<Option<BindingPattern>>, rest: Option<Box<BindingPattern>> },
    /// `a = default`: the pattern on the left.
    Assignment { left: Box<BindingPattern> },
}

/// A binding in mathematical form: name and span.
pub open spec fn binding_view(b: Binding) -> (Seq<char>, (u32, u32)) {
    (b.name@, b.span)
}

/// The bindings of a pattern, left to right.
pub open spec fn pattern_names(p: BindingPattern) -> Seq<(Seq<char>, (u32, u32))>
    decreases p,
{
    match p {
        BindingPattern::Identifier(b) => seq![binding_view(b)],
        BindingPattern::Object { properties, rest } => patterns_names(properties@) + match rest {
            Some(r) => pattern_names(*r),
            None => Seq::empty(),
        },
        BindingPattern::Array { elements, rest } => element_names(elements@) + match rest {
            Some(r) => pattern_names(*r),
            None => Seq::empty(),
        },
        BindingPattern::Assignment { left } => pattern_names(*left),
    }
}

/// The bindings of a list of patterns, in order.
pub open spec fn patterns_names(ps: Seq<BindingPattern>) -> Seq<(Seq<char>, (u32, u32))>
    decreases ps,
{
    if ps.len() == 0 {
        Seq::empty()
    } else {
        patterns_names(ps.drop_last()) + pattern_names(ps.last())
    }
}

/// The bindings of a list of array elements (holes bind nothing), in order.
pub open spec fn element_names(es: Seq<Option<BindingPattern>>) -> Seq<(Seq<char>, (u32, u32))>
    decreases es,
{
    if es.len() == 0 {
        Seq::empty()
    } else {
        element_names(es.drop_last()) + match es.last() {
            Some(p) => pattern_names(p),
            None => Seq::empty(),
        }
    }
}

/// The views of a list of bindings.
pub open spec fn binding_views(bs: Seq<Binding>) -> Seq<(Seq<char>, (u32, u32))> {
    bs.map_values(|b: Binding| binding_view(b))
}

fn push_binding(out: &mut Vec<Binding>, b: &Binding)
    ensures
        binding_views(final(out)@) == binding_views(old(out)@).push(binding_view(*b)),
{
    let ghost before = binding_views(out@);
    out.push(Binding { name: crate::copy_string(&b.name), span: b.span });
    assert(binding_views(out@) =~= before.push(binding_view(*b)));
}

/// Add the bindings of `p`, left to right, to `out`.
#[verifier::loop_isolation(false)]
pub fn pattern_bindings(p: &BindingPattern, out: &mut Vec<Binding>)
    ensures
        binding_views(final(out)@) == binding_views(old(out)@) + pattern_names(*p),
    decreases p,
{
    let ghost start = binding_views(out@);
    match p {
        BindingPattern::Identifier(b) => {
            push_binding(out, b);
            assert(binding_views(out@) =~= start + pattern_names(*p));
        },
        BindingPattern::Object { properties, rest } => {
            let mut i: usize = 0;
            assert(properties@.take(0) =~= Seq::<BindingPattern>::empty());
            assert(binding_views(out@) =~= start + patterns_names(properties@.take(0)));
            while i < properties.len()
                invariant
                    i <= properties@.len(),
                    binding_views(out@) == start + patterns_names(properties@.take(i as int)),
                decreases properties@.len() - i,
            {
                assert(properties@.take(i + 1).drop_last() =~= properties@.take(i as int));
                assert(properties@.take(i + 1).last() == properties@[i as int]);
                assert(decreases_to!(properties@ => properties@[i as int]));
                pattern_bindings(&properties[i], out);
                i += 1;
            }
            assert(properties@.take(properties@.len() as int) =~= properties@);
            match rest {
                Some(r) => {
                    pattern_bindings(&**r, out);
                },
                None => {},
            }
            assert(binding_views(out@) =~= start + pattern_names(*p));
        },
        BindingPattern::Array { elements, rest } => {
            let mut i: usize = 0;
            assert(elements@.take(0) =~= Seq::<Option<BindingPattern>>::empty());
            assert(binding_views(out@) =~= start + element_names(elements@.take(0)));
            while i < elements.len()
                invariant
                    i <= elements@.len(),
                    binding_views(out@) == start + element_names(elements@.take(i as int)),
                decreases elements@.len() - i,
            {
                assert(elements@.take(i + 1).drop_last() =~= elements@.take(i as int));
                assert(elements@.take(i + 1).last() == elements@[i as int]);
                match &elements[i] {
                    Some(e) => {
                        assert(decreases_to!(elements@ => elements@[i as int]));
                        assert(decreases_to!(elements@[i as int] => elements@[i as int]->0));
                        pattern_bindings(e, out);
                    },
                    None => {
                        assert(binding_views(out@) =~= start + element_names(elements@.take(i + 1)));
                    },
                }
                i += 1;
            }
            assert(elements@.take(elements@.len() as int) =~= elements@);
            match rest {
                Some(r) => {
                    pattern_bindings(&**r, out);
                },
                None => {},
            }
            assert(binding_views(out@) =~= start + pattern_names(*p));
        },
        BindingPattern::Assignment { left } => {
            pattern_bindings(&**left, out);
        },
    }
}

/// A top-level statement, as the index reads it.
#[derive(Debug)]
pub enum ModuleStmt {
    /// An import declaration, with its specifiers.
    Import { source: String, specifiers: Vec<ImportSpec> },
    /// `export { a, b as c }` or `export <declaration>`: the exported names of
    /// the specifiers, then the names that the declaration binds.
    ExportNamed { exported: Vec<String>, declared: Vec<Binding> },
    /// `export default ...`, with the name of a default-exported function or
    /// class declaration.
    ExportDefault { named: Option<Binding> },
    /// `export * from ...`
    ExportAll,
    /// Any other statement, with the names it declares at top level.
    Other { declared: Vec<Binding> },
}

/// The import binding of a specifier of an import from `source`.
pub open spec fn spec_import(source: Seq<char>, s: ImportSpec) -> (Seq<char>, ImportView) {
    match s {
        ImportSpec::Named { local, imported } => (local@, (source, imported@, ImportKind::Named, false)),
        ImportSpec::Default { local } => (local@, (source, "default"@, ImportKind::Default, false)),
        ImportSpec::Namespace { local } => (local@, (source, "*"@, ImportKind::Namespace, false)),
    }
}

/// The first `k` specifiers of an import from `source` entered into `c`.
pub open spec fn imports_into(c: CollectView, source: Seq<char>, specs: Seq<ImportSpec>, k: int) -> CollectView
    decreases k,
{
    if k <= 0 {
        c
    } else {
        let p = imports_into(c, source, specs, k - 1);
        let (local, i) = spec_import(source, specs[k - 1]);
        with_import(p, local, i)
    }
}

/// The first `k` names entered into the exports.
pub open spec fn exports_into(e: Seq<Seq<char>>, names: Seq<Seq<char>>, k: int) -> Seq<Seq<char>>
    decreases k,
{
    if k <= 0 {
        e
    } else {
        set_insert(exports_into(e, names, k - 1), names[k - 1])
    }
}

/// The first `k` bindings entered into the top-level declarations.
pub open spec fn roots_into(r: Seq<(Seq<char>, (u32, u32))>, bs: Seq<Binding>, k: int) -> Seq<
    (Seq<char>, (u32, u32)),
>
    decreases k,
{
    if k <= 0 {
        r
    } else {
        keyed_insert(roots_into(r, bs, k - 1), bs[k - 1].name@, bs[k - 1].span)
    }
}

/// The names of bindings.
pub open spec fn binding_names(bs: Seq<Binding>) -> Seq<Seq<char>> {
    bs.map_values(|b: Binding| b.name@)
}

/// One statement entered into the index.
pub open spec fn stmt_into(c: CollectView, s: ModuleStmt) -> CollectView {
    match s {
        ModuleStmt::Import { source, specifiers } => imports_into(
            c,
            source@,
            specifiers@,
            specifiers@.len() as int,
        ),
        ModuleStmt::ExportNamed { exported, declared } => CollectView {
            exports: exports_into(
                exports_into(c.exports, views(exported@), exported@.len() as int),
                binding_names(declared@),
                declared@.len() as int,
            ),
            root: roots_into(c.root, declared@, declared@.len() as int),
            ..c
        },
        ModuleStmt::ExportDefault { named } => CollectView {
            exports: set_insert(c.exports, "default"@),
            root: match named {
                Some(b) => keyed_insert(c.root, b.name@, b.span),
                None => c.root,
            },
            ..c
        },
        ModuleStmt::ExportAll => c,
        ModuleStmt::Other { declared } => CollectView {
            root: roots_into(c.root, declared@, declared@.len() as int),
            ..c
        },
    }
}

/// The index of the first `k` statements.
pub open spec fn collect_upto(stmts: Seq<ModuleStmt>, k: int) -> CollectView
    decreases k,
{
    if k <= 0 {
        empty_collect()
    } else {
        stmt_into(collect_upto(stmts, k - 1), stmts[k - 1])
    }
}

impl GlobalCollect {
    fn add_export(&mut self, name: String)
        requires
            old(self).wf(),
        ensures
            final(self).wf(),
            final(self).view_of() == with_exports(
                old(self).view_of(),
                set_insert(old(self).view_of().exports, name@),
            ),
    {
        let ghost before = export_keys(self.exports);
        export_map_insert(&mut self.exports, name);
        proof {
            lemma_set_insert_unique(before, name@);
        }
    }

    fn add_root(&mut self, name: String, span: (u32, u32))
        requires
            old(self).wf(),
        ensures
            final(self).wf(),
            final(self).view_of() == with_root(
                old(self).view_of(),
                keyed_insert(old(self).view_of().root, name@, span),
            ),
    {
        let ghost before = root_entries(self.root);
        root_map_insert(&mut self.root, name, span);
        proof {
            lemma_keyed_insert_unique(before, name@, span);
        }
    }

    fn add_roots(&mut self, bs: &Vec<Binding>)
        requires
            old(self).wf(),
        ensures
            final(self).wf(),
            final(self).view_of() == with_root(
                old(self).view_of(),
                roots_into(old(self).view_of().root, bs@, bs@.len() as int),
            ),
    {
        let ghost start = self.view_of();
        let mut k: usize = 0;
        while k < bs.len()
            invariant
                k <= bs@.len(),
                self.wf(),
                self.view_of() == with_root(start, roots_into(start.root, bs@, k as int)),
            decreases bs@.len() - k,
        {
            self.add_root(crate::copy_string(&bs[k].name), bs[k].span);
            k += 1;
        }
    }

    fn add_exports(&mut self, names: &Vec<String>)
        requires
            old(self).wf(),
        ensures
            final(self).wf(),
            final(self).view_of() == with_exports(
                old(self).view_of(),
                exports_into(old(self).view_of().exports, views(names@), names@.len() as int),
            ),
    {
        let ghost start = self.view_of();
        let mut k: usize = 0;
        while k < names.len()
            invariant
                k <= names@.len(),
                self.wf(),
                self.view_of() == with_exports(start, exports_into(start.exports, views(names@), k as int)),
            decreases names@.len() - k,
        {
            self.add_export(crate::copy_string(&names[k]));
            k += 1;
        }
    }

    fn add_binding_exports(&mut self, bs: &Vec<Binding>)
        requires
            old(self).wf(),
        ensures
            final(self).wf(),
            final(self).view_of() == with_exports(
                old(self).view_of(),
                exports_into(old(self).view_of().exports, binding_names(bs@), bs@.len() as int),
            ),
    {
        let ghost start = self.view_of();
        let mut k: usize = 0;
        while k < bs.len()
            invariant
                k <= bs@.len(),
                self.wf(),
                self.view_of() == with_exports(start, exports_into(start.exports, binding_names(bs@), k as int)),
            decreases bs@.len() - k,
        {
            self.add_export(crate::copy_string(&bs[k].name));
            k += 1;
        }
    }
}

/// Build the index of a module from its top-level statements: import
/// bindings by local name; exported names (`default` for a default export);
/// top-level declarations, exported ones included, imports not.
pub fn global_collect(stmts: &Vec<ModuleStmt>) -> (r: GlobalCollect)
    ensures
        r.wf(),
        r.view_of() == collect_upto(stmts@, stmts@.len() as int),
{
    let mut collect = GlobalCollect::new();
    let mut k: usize = 0;
    while k < stmts.len()
        invariant
            k <= stmts@.len(),
            collect.wf(),
            collect.view_of() == collect_upto(stmts@, k as int),
        decreases stmts@.len() - k,
    {
        match &stmts[k] {
            ModuleStmt::Import { source, specifiers } => {
                let ghost start = collect.view_of();
                let mut j: usize = 0;
                while j < specifiers.len()
                    invariant
                        j <= specifiers@.len(),
                        collect.wf(),
                        collect.view_of() == imports_into(start, source@, specifiers@, j as int),
                    decreases specifiers@.len() - j,
                {
                    let src = crate::copy_string(source);
                    let (local, import) = match &specifiers[j] {
                        ImportSpec::Named { local, imported } => (
                            crate::copy_string(local),
                            Import {
                                source: src,
                                specifier: crate::copy_string(imported),
                                kind: ImportKind::Named,
                                synthetic: false,
                            },
                        ),
                        ImportSpec::Default { local } => (
                            crate::copy_string(local),
                            Import {
                                source: src,
                                specifier: String::from_str("default"),
                                kind: ImportKind::Default,
                                synthetic: false,
                            },
                        ),
                        ImportSpec::Namespace { local } => (
                            crate::copy_string(local),
                            Import {
                                source: src,
                                specifier: String::from_str("*"),
                                kind: ImportKind::Namespace,
                                synthetic: false,
                            },
                        ),
                    };
                    collect.insert_import(local, import);
                    j += 1;
                }
            },
            ModuleStmt::ExportNamed { exported, declared } => {
                collect.add_exports(exported);
                collect.add_binding_exports(declared);
                collect.add_roots(declared);
            },
            ModuleStmt::ExportDefault { named } => {
                collect.add_export(String::from_str("default"));
                if let Some(b) = named {
                    collect.add_root(crate::copy_string(&b.name), b.span);
                }
            },
            ModuleStmt::ExportAll => {},
            ModuleStmt::Other { declared } => {
                collect.add_roots(declared);
            },
        }
        k += 1;
    }
    collect
}

// ---------------------------------------------------------------------------
// Laws
// ---------------------------------------------------------------------------

/// The statement binds `n` at top level (imports do not count).
pub open spec fn binds_root(s: ModuleStmt, n: Seq<char>) -> bool {
    match s {
        ModuleStmt::ExportNamed { declared, .. } => binding_names(declared@).contains(n),
        ModuleStmt::Other { declared } => binding_names(declared@).contains(n),
        ModuleStmt::ExportDefault { named } => named matches Some(b) && b.name@ == n,
        _ => false,
    }
}

proof fn lemma_keyed_insert_keys<K, V>(s: Seq<(K, V)>, k: K, v: V, n: K)
    ensures
        key_pos(keyed_insert(s, k, v), n) is Some ==> key_pos(s, n) is Some || n == k,
{
    lemma_key_pos(s, n);
    lemma_key_pos(keyed_insert(s, k, v), n);
    lemma_key_pos(s, k);
    if key_pos(keyed_insert(s, k, v), n) is Some && n != k {
        let p = key_pos(keyed_insert(s, k, v), n)->0;
        assert(s[p].0 == n);
    }
}

proof fn lemma_roots_into_keys(r: Seq<(Seq<char>, (u32, u32))>, bs: Seq<Binding>, m: int, n: Seq<char>)
    requires
        0 <= m <= bs.len(),
    ensures
        key_pos(roots_into(r, bs, m), n) is Some ==> key_pos(r, n) is Some || binding_names(bs).contains(
            n,
        ),
    decreases m,
{
    if m > 0 {
        lemma_roots_into_keys(r, bs, m - 1, n);
        lemma_keyed_insert_keys(roots_into(r, bs, m - 1), bs[m - 1].name@, bs[m - 1].span, n);
        if n == bs[m - 1].name@ {
            assert(binding_names(bs)[m - 1] == n);
        }
    }
}

proof fn lemma_imports_keep_root(c: CollectView, source: Seq<char>, specs: Seq<ImportSpec>, k: int)
    ensures
        imports_into(c, source, specs, k).root == c.root,
    decreases k,
{
    if k > 0 {
        lemma_imports_keep_root(c, source, specs, k - 1);
    }
}

/// Law: the top-level declarations of the index are names that some
/// statement binds; an import binding alone never makes one.
pub proof fn lemma_root_names_are_declared(stmts: Seq<ModuleStmt>, k: int, n: Seq<char>)
    requires
        0 <= k <= stmts.len(),
        key_pos(collect_upto(stmts, k).root, n) is Some,
    ensures
        exists|i: int| 0 <= i < k && binds_root(#[trigger] stmts[i], n),
    decreases k,
{
    let prev = collect_upto(stmts, k - 1);
    let s = stmts[k - 1];
    let here = binds_root(s, n);
    if !here {
        match s {
            ModuleStmt::Import { source, specifiers } => {
                lemma_imports_keep_root(prev, source@, specifiers@, specifiers@.len() as int);
            },
            ModuleStmt::ExportNamed { exported, declared } => {
                lemma_roots_into_keys(prev.root, declared@, declared@.len() as int, n);
            },
            ModuleStmt::ExportDefault { named } => {
                match named {
                    Some(b) => {
                        lemma_keyed_insert_keys(prev.root, b.name@, b.span, n);
                    },
                    None => {},
                }
            },
            ModuleStmt::ExportAll => {},
            ModuleStmt::Other { declared } => {
                lemma_roots_into_keys(prev.root, declared@, declared@.len() as int, n);
            },
        }
        lemma_root_names_are_declared(stmts, k - 1, n);
        let i = choose|i: int| 0 <= i < k - 1 && binds_root(#[trigger] stmts[i], n);
        assert(binds_root(stmts[i], n));
    } else {
        assert(binds_root(stmts[k - 1], n));
    }
}

} // verus!
