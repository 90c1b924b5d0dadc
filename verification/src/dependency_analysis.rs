//! Which root-level declarations of a file can move into the one segment module
//! that uses them: the root declarations with their dependencies, the names the
//! root module still uses, the usage of each declaration by segments, and the
//! migration decision with its safety fixpoint.
//!
//! The module's statements come as `RootStmt` and `MainStmt`: the parts of
//! each parsed statement that the analysis reads.

use vstd::prelude::*;

use crate::collector::{import_names, lemma_key_pos_contains, GlobalCollect};
use crate::module_output::SegmentRecord;
use crate::code_move::views;
use crate::text::{chars_of, contains_str, distinct_strings, insert_sorted, matches_at, sorted_lex, str_eq};

verus! {

// ---------------------------------------------------------------------------
// Whole-word search on the UTF-8 bytes of a text
// ---------------------------------------------------------------------------

/// A byte of an identifier: ASCII letter or digit, `_` or `$`.
pub open spec fn is_ident_byte(b: u8) -> bool {
    ||| 48 <= b <= 57
    ||| 65 <= b <= 90
    ||| 97 <= b <= 122
    ||| b == 95
    ||| b == 36
}

fn ident_byte(b: u8) -> (r: bool)
    ensures
        r == is_ident_byte(b),
{
    (48 <= b && b <= 57) || (65 <= b && b <= 90) || (97 <= b && b <= 122) || b == 95 || b == 36
}

/// The bytes `w` occur in `t` at `start` with no identifier byte right before
/// or right after them.
pub open spec fn whole_word_at(t: Seq<u8>, w: Seq<u8>, start: int) -> bool {
    &&& 0 <= start
    &&& start + w.len() <= t.len()
    &&& t.subrange(start, start + w.len()) == w
    &&& (start == 0 || !is_ident_byte(t[start - 1]))
    &&& (start + w.len() == t.len() || !is_ident_byte(t[start + w.len()]))
}

/// `word` occurs in `text` as a whole word, comparing UTF-8 bytes.
pub open spec fn contains_whole_word_spec(text: Seq<u8>, word: Seq<u8>) -> bool {
    exists|start: int| whole_word_at(text, word, start)
}

/// Whether `text` contains `word` as a whole-word match.
pub fn contains_whole_word(text: &str, word: &str) -> (r: bool)
    ensures
        r == contains_whole_word_spec(vstd::utf8::encode_utf8(text@), vstd::utf8::encode_utf8(word@)),
{
    let bytes = text.as_bytes();
    let wbytes = word.as_bytes();
    let tlen = bytes.len();
    let wlen = wbytes.len();
    if wlen > tlen {
        assert forall|s: int| !whole_word_at(bytes@, wbytes@, s) by {}
        return false;
    }
    let last = tlen - wlen;
    let mut start: usize = 0;
    loop
        invariant
            bytes@ == vstd::utf8::encode_utf8(text@),
            wbytes@ == vstd::utf8::encode_utf8(word@),
            tlen == bytes@.len(),
            wlen == wbytes@.len(),
            wlen <= tlen,
            last == tlen - wlen,
            start <= last,
            forall|s: int| 0 <= s < start ==> !whole_word_at(bytes@, wbytes@, s),
        ensures
            forall|s: int| 0 <= s <= last ==> !whole_word_at(bytes@, wbytes@, s),
        decreases last - start,
    {
        let mut eq = true;
        let mut k: usize = 0;
        while k < wlen
            invariant
                start + wlen <= tlen,
                tlen == bytes@.len(),
                wlen == wbytes@.len(),
                k <= wlen,
                eq == forall|j: int| 0 <= j < k ==> bytes@[start + j] == wbytes@[j],
            decreases wlen - k,
        {
            if bytes[start + k] != wbytes[k] {
                eq = false;
            }
            k += 1;
        }
        if eq {
            assert(bytes@.subrange(start as int, start + wlen) =~= wbytes@);
        } else {
            let ghost j = choose|j: int| 0 <= j < wlen && bytes@[start + j] != wbytes@[j];
            assert(bytes@.subrange(start as int, start + wlen)[j] != wbytes@[j]);
        }
        if eq {
            let pre_ok = start == 0 || !ident_byte(bytes[start - 1]);
            let post_ok = start + wlen == tlen || !ident_byte(bytes[start + wlen]);
            if pre_ok && post_ok {
                assert(whole_word_at(bytes@, wbytes@, start as int));
                return true;
            }
        }
        if start == last {
            break;
        }
        start += 1;
    }
    assert forall|s: int| !whole_word_at(bytes@, wbytes@, s) by {
        if 0 <= s <= last {
        }
    }
    false
}

// ---------------------------------------------------------------------------
// Usage of root declarations by segments
// ---------------------------------------------------------------------------

/// A root-level declaration of the parent module.
#[derive(Debug, Clone)]
pub struct RootVarInfo {
    /// The declaration's code.
    pub code: String,
    /// Whether it is an import binding.
    pub is_imported: bool,
    /// Whether it is exported.
    pub is_exported: bool,
    /// Other root-level names it refers to.
    pub depends_on: Vec<String>,
}

// ---------------------------------------------------------------------------
// Root-level declarations of the parent module
// ---------------------------------------------------------------------------

/// The keyword of a variable declaration (`using` declarations count as `const`).
#[derive(Debug, Clone, Copy, PartialEq, Eq, Structural)]
pub enum VarKind {
    Const,
    Let,
    Var,
}

/// A declarator of a top-level variable declaration.
#[derive(Debug, Clone)]
pub struct RootDeclarator {
    /// The bound name; `None` for a destructuring pattern.
    pub name: Option<String>,
    /// The source text of the initializer, if any.
    pub init: Option<String>,
    /// The identifiers that the initializer references, in order, repeats
    /// included.
    pub init_refs: Vec<String>,
}

/// A top-level statement of the parent module, as the dependency analysis
/// reads it.
#[derive(Debug, Clone)]
pub enum RootStmt {
    /// A variable declaration; `exported` for `export const ...`.
    Vars { kind: VarKind, declarators: Vec<RootDeclarator>, exported: bool },
    /// A function or class declaration: its name (`None` when anonymous), its
    /// source text (the `export` statement's when exported), the identifiers
    /// its body references (in order, repeats included), and whether it is
    /// exported.
    FnOrClass { name: Option<String>, code: String, refs: Vec<String>, exported: bool },
    /// Any other statement.
    Other,
}

/// The declarator binds `n`.
pub open spec fn binds(d: RootDeclarator, n: Seq<char>) -> bool {
    d.name matches Some(x) && x@ == n
}

/// The statement declares `n`.
pub open spec fn declares(s: RootStmt, n: Seq<char>) -> bool {
    match s {
        RootStmt::Vars { declarators, .. } => exists|j: int|
            0 <= j < declarators@.len() && #[trigger] binds(declarators@[j], n),
        RootStmt::FnOrClass { name, .. } => name matches Some(x) && x@ == n,
        RootStmt::Other => false,
    }
}

/// Some top-level statement declares `n`.
pub open spec fn root_declared(stmts: Seq<RootStmt>, n: Seq<char>) -> bool {
    exists|i: int| 0 <= i < stmts.len() && declares(#[trigger] stmts[i], n)
}

/// The references among `refs` to root-level names, in order.
pub open spec fn keep_declared(stmts: Seq<RootStmt>, refs: Seq<Seq<char>>) -> Seq<Seq<char>>
    decreases refs.len(),
{
    if refs.len() == 0 {
        Seq::empty()
    } else {
        let p = keep_declared(stmts, refs.drop_last());
        if root_declared(stmts, refs.last()) {
            p.push(refs.last())
        } else {
            p
        }
    }
}

/// `n` is exported by name, other than by a generated `_auto_` export.
pub open spec fn exported_local(exports: Seq<Seq<char>>, n: Seq<char>) -> bool {
    exports.contains(n) && !(n.len() >= 6 && n.subrange(0, 6) == "_auto_"@)
}

/// The keyword of a variable declaration.
pub open spec fn kind_text(k: VarKind) -> Seq<char> {
    match k {
        VarKind::Const => "const"@,
        VarKind::Let => "let"@,
        VarKind::Var => "var"@,
    }
}

/// The code of one declarator on its own: `{kind} {name} = {init};`, or
/// `{kind} {name};` without an initializer (or with an empty one).
pub open spec fn declarator_code(k: VarKind, name: Seq<char>, init: Option<String>) -> Seq<char> {
    if init is Some && init->0@.len() > 0 {
        kind_text(k) + " "@ + name + " = "@ + init->0@ + ";"@
    } else {
        kind_text(k) + " "@ + name + ";"@
    }
}

/// A root declaration's information in mathematical form: its code, whether
/// it is imported, whether it is exported, and the root names it references.
pub open spec fn info_view(i: RootVarInfo) -> (Seq<char>, bool, bool, Seq<Seq<char>>) {
    (i.code@, i.is_imported, i.is_exported, views(i.depends_on@))
}

/// The first `j` declarators of a declaration, entered into `m`.
pub open spec fn declarators_into(
    m: Map<Seq<char>, (Seq<char>, bool, bool, Seq<Seq<char>>)>,
    stmts: Seq<RootStmt>,
    imports: Seq<Seq<char>>,
    exports: Seq<Seq<char>>,
    kind: VarKind,
    ds: Seq<RootDeclarator>,
    exported: bool,
    j: int,
) -> Map<Seq<char>, (Seq<char>, bool, bool, Seq<Seq<char>>)>
    decreases j,
{
    if j <= 0 {
        m
    } else {
        let prev = declarators_into(m, stmts, imports, exports, kind, ds, exported, j - 1);
        let d = ds[j - 1];
        match d.name {
            Some(n) => prev.insert(
                n@,
                (
                    declarator_code(kind, n@, d.init),
                    imports.contains(n@),
                    exported || exported_local(exports, n@),
                    keep_declared(stmts, views(d.init_refs@)),
                ),
            ),
            None => prev,
        }
    }
}

/// The root declarations of the first `k` statements, by name; a later
/// declaration of a name replaces an earlier one.
pub open spec fn root_decls_upto(
    stmts: Seq<RootStmt>,
    imports: Seq<Seq<char>>,
    exports: Seq<Seq<char>>,
    k: int,
) -> Map<Seq<char>, (Seq<char>, bool, bool, Seq<Seq<char>>)>
    decreases k,
{
    if k <= 0 {
        Map::empty()
    } else {
        let m = root_decls_upto(stmts, imports, exports, k - 1);
        match stmts[k - 1] {
            RootStmt::Vars { kind, declarators, exported } => declarators_into(
                m,
                stmts,
                imports,
                exports,
                kind,
                declarators@,
                exported,
                declarators@.len() as int,
            ),
            RootStmt::FnOrClass { name, code, refs, exported } => match name {
                Some(n) => m.insert(
                    n@,
                    (
                        code@,
                        imports.contains(n@),
                        exported || exported_local(exports, n@),
                        keep_declared(stmts, views(refs@)),
                    ),
                ),
                None => m,
            },
            RootStmt::Other => m,
        }
    }
}

/// A keyed list holds exactly the entries of `m`.
pub open spec fn keyed_as(
    v: Seq<(String, RootVarInfo)>,
    m: Map<Seq<char>, (Seq<char>, bool, bool, Seq<Seq<char>>)>,
) -> bool {
    &&& distinct_keys(v)
    &&& forall|n: Seq<char>| #[trigger] has_key(v, n) <==> m.dom().contains(n)
    &&& forall|i: int| 0 <= i < v.len() ==> m[(#[trigger] v[i]).0@] == info_view(v[i].1)
}

#[verifier::loop_isolation(false)]
fn declares_name(stmt: &RootStmt, n: &str) -> (r: bool)
    ensures
        r == declares(*stmt, n@),
{
    match stmt {
        RootStmt::Vars { declarators, .. } => {
            let mut j: usize = 0;
            while j < declarators.len()
                invariant
                    j <= declarators@.len(),
                    forall|q: int| 0 <= q < j ==> !#[trigger] binds(declarators@[q], n@),
                decreases declarators@.len() - j,
            {
                if let Some(x) = &declarators[j].name {
                    if str_eq(x.as_str(), n) {
                        assert(binds(declarators@[j as int], n@));
                        return true;
                    }
                }
                j += 1;
            }
            false
        },
        RootStmt::FnOrClass { name, .. } => match name {
            Some(x) => str_eq(x.as_str(), n),
            None => false,
        },
        RootStmt::Other => false,
    }
}

fn is_root_declared(stmts: &Vec<RootStmt>, n: &str) -> (r: bool)
    ensures
        r == root_declared(stmts@, n@),
{
    let mut i: usize = 0;
    while i < stmts.len()
        invariant
            i <= stmts@.len(),
            forall|k: int| 0 <= k < i ==> !declares(#[trigger] stmts@[k], n@),
        decreases stmts@.len() - i,
    {
        if declares_name(&stmts[i], n) {
            return true;
        }
        i += 1;
    }
    false
}

/// Whether `n` begins with `_auto_`.
fn auto_export_name(n: &str) -> (r: bool)
    ensures
        r == (n@.len() >= 6 && n@.subrange(0, 6) == "_auto_"@),
{
    let v = chars_of(n);
    let p = chars_of("_auto_");
    proof {
        reveal_strlit("_auto_");
    }
    matches_at(&v, &p, 0)
}

/// The root declarations listed by `stmts` with their code, import and export
/// status and dependencies on other root declarations.
pub fn analyze_root_dependencies(stmts: &Vec<RootStmt>, global: &GlobalCollect) -> (r: Vec<
    (String, RootVarInfo),
>)
    ensures
        keyed_as(
            r@,
            root_decls_upto(
                stmts@,
                import_names(global.view_of()),
                global.view_of().exports,
                stmts@.len() as int,
            ),
        ),
{
    let ghost imports = import_names(global.view_of());
    let ghost exports = global.view_of().exports;
    let mut r: Vec<(String, RootVarInfo)> = Vec::new();
    let mut i: usize = 0;
    while i < stmts.len()
        invariant
            i <= stmts@.len(),
            imports == import_names(global.view_of()),
            exports == global.view_of().exports,
            keyed_as(r@, root_decls_upto(stmts@, imports, exports, i as int)),
        decreases stmts@.len() - i,
    {
        match &stmts[i] {
            RootStmt::Vars { kind, declarators, exported } => {
                let mut j: usize = 0;
                while j < declarators.len()
                    invariant
                        j <= declarators@.len(),
                        i < stmts@.len(),
                        stmts@[i as int] matches RootStmt::Vars { kind: k2, declarators: ds, exported: e2 }
                            && k2 == *kind && ds@ == declarators@ && e2 == *exported,
                        imports == import_names(global.view_of()),
                        exports == global.view_of().exports,
                        keyed_as(
                            r@,
                            declarators_into(
                                root_decls_upto(stmts@, imports, exports, i as int),
                                stmts@,
                                imports,
                                exports,
                                *kind,
                                declarators@,
                                *exported,
                                j as int,
                            ),
                        ),
                    decreases declarators@.len() - j,
                {
                    let d = &declarators[j];
                    if let Some(name) = &d.name {
                        let code = declarator_text(*kind, name.as_str(), &d.init);
                        let deps = keep_root_refs(stmts, &d.init_refs);
                        let is_exported = *exported || (global.has_export_symbol(name.as_str())
                            && !auto_export_name(name.as_str()));
                        let is_imported = global.is_import(name.as_str());
                        proof {
                            lemma_key_pos_contains(global.view_of().imports, name@);
                        }
                        let info = RootVarInfo {
                            code,
                            is_imported,
                            is_exported,
                            depends_on: deps,
                        };
                        upsert_decl(&mut r, name.as_str(), info);
                    }
                    j += 1;
                }
            },
            RootStmt::FnOrClass { name, code, refs, exported } => {
                if let Some(n) = name {
                    let deps = keep_root_refs(stmts, refs);
                    let is_exported = *exported || (global.has_export_symbol(n.as_str())
                        && !auto_export_name(n.as_str()));
                    let is_imported = global.is_import(n.as_str());
                    proof {
                        lemma_key_pos_contains(global.view_of().imports, n@);
                    }
                    let info = RootVarInfo {
                        code: crate::copy_string(code),
                        is_imported,
                        is_exported,
                        depends_on: deps,
                    };
                    upsert_decl(&mut r, n.as_str(), info);
                }
            },
            RootStmt::Other => {},
        }
        i += 1;
    }
    r
}

/// The code of a declarator on its own.
fn declarator_text(kind: VarKind, name: &str, init: &Option<String>) -> (r: String)
    ensures
        r@ == declarator_code(kind, name@, *init),
{
    let mut r = match kind {
        VarKind::Const => String::from_str("const"),
        VarKind::Let => String::from_str("let"),
        VarKind::Var => String::from_str("var"),
    };
    r.append(" ");
    r.append(name);
    match init {
        Some(c) => {
            if c.as_str().unicode_len() > 0 {
                r.append(" = ");
                r.append(c.as_str());
            }
        },
        None => {},
    }
    r.append(";");
    r
}

/// The references among `refs` to root-level names, in order.
fn keep_root_refs(stmts: &Vec<RootStmt>, refs: &Vec<String>) -> (r: Vec<String>)
    ensures
        views(r@) == keep_declared(stmts@, views(refs@)),
{
    let mut r: Vec<String> = Vec::new();
    let mut k: usize = 0;
    while k < refs.len()
        invariant
            k <= refs@.len(),
            views(r@) == keep_declared(stmts@, views(refs@).take(k as int)),
        decreases refs@.len() - k,
    {
        proof {
            assert(views(refs@).take(k + 1).drop_last() =~= views(refs@).take(k as int));
            assert(views(refs@).take(k + 1).last() == refs@[k as int]@);
        }
        if is_root_declared(stmts, refs[k].as_str()) {
            let ghost before = views(r@);
            r.push(crate::copy_string(&refs[k]));
            proof {
                assert(views(r@) =~= before.push(refs@[k as int]@));
            }
        }
        k += 1;
    }
    proof {
        assert(views(refs@).take(refs@.len() as int) =~= views(refs@));
    }
    r
}

/// Enter `info` under `name`, replacing an entry of that name.
fn upsert_decl(v: &mut Vec<(String, RootVarInfo)>, name: &str, info: RootVarInfo)
    requires
        distinct_keys(old(v)@),
    ensures
        distinct_keys(final(v)@),
        forall|n: Seq<char>| #[trigger] has_key(final(v)@, n) <==> (has_key(old(v)@, n) || n == name@),
        forall|i: int|
            0 <= i < final(v)@.len() ==> (#[trigger] final(v)@[i]).0@ == name@ && info_view(final(v)@[i].1)
                == info_view(info) || (final(v)@[i].0@ != name@ && exists|k: int|
                0 <= k < old(v)@.len() && old(v)@[k] == final(v)@[i]),
{
    match find_key(v, name) {
        Some(idx) => {
            let ghost old_v = v@;
            let entry = (crate::copy_string(&v[idx].0), info);
            v.set(idx, entry);
            proof {
                assert forall|n: Seq<char>| #[trigger] has_key(v@, n) <==> (has_key(old_v, n) || n == name@) by {
                    if has_key(old_v, n) {
                        let k = choose|k: int| 0 <= k < old_v.len() && (#[trigger] old_v[k]).0@ == n;
                        assert(v@[k].0@ == n);
                    }
                    if has_key(v@, n) {
                        let k = choose|k: int| 0 <= k < v@.len() && (#[trigger] v@[k]).0@ == n;
                        assert(old_v[k].0@ == n);
                    }
                }
                assert forall|i: int| 0 <= i < v@.len() implies (#[trigger] v@[i]).0@ == name@ && info_view(
                    v@[i].1,
                ) == info_view(info) || (v@[i].0@ != name@ && exists|k: int|
                    0 <= k < old_v.len() && old_v[k] == v@[i]) by {
                    if i != idx {
                        assert(old_v[i] == v@[i]);
                        assert(old_v[i].0@ != old_v[idx as int].0@);
                    }
                }
            }
        },
        None => {
            let ghost old_v = v@;
            v.push((String::from_str(name), info));
            proof {
                assert forall|n: Seq<char>| #[trigger] has_key(v@, n) <==> (has_key(old_v, n) || n == name@) by {
                    if has_key(old_v, n) {
                        let k = choose|k: int| 0 <= k < old_v.len() && (#[trigger] old_v[k]).0@ == n;
                        assert(v@[k].0@ == n);
                    }
                    if n == name@ {
                        assert(v@[old_v.len() as int].0@ == n);
                    }
                    if has_key(v@, n) && n != name@ {
                        let k = choose|k: int| 0 <= k < v@.len() && (#[trigger] v@[k]).0@ == n;
                        assert(old_v[k].0@ == n);
                    }
                }
                assert forall|i: int| 0 <= i < v@.len() implies (#[trigger] v@[i]).0@ == name@ && info_view(
                    v@[i].1,
                ) == info_view(info) || (v@[i].0@ != name@ && exists|k: int|
                    0 <= k < old_v.len() && old_v[k] == v@[i]) by {
                    if i < old_v.len() {
                        assert(old_v[i] == v@[i]);
                        assert(old_v[i].0@ != name@) by {
                            if old_v[i].0@ == name@ {
                                assert(has_key(old_v, name@));
                            }
                        }
                    }
                }
                assert forall|a: int, b: int| 0 <= a < b < v@.len() implies (#[trigger] v@[a]).0@ != (
                #[trigger] v@[b]).0@ by {
                    if b == old_v.len() {
                        if v@[a].0@ == name@ {
                            assert(old_v[a].0@ == name@);
                            assert(has_key(old_v, name@));
                        }
                    }
                }
            }
        },
    }
}

/// A top-level statement of the root module, as the scan for names that the
/// root module still uses reads it.
#[derive(Debug, Clone)]
pub struct MainStmt {
    /// The callee of a statement that is a call of a plain identifier.
    pub call_callee: Option<String>,
    /// The identifiers that the statement references.
    pub refs: Vec<String>,
}

/// `s` ends with `suffix`.
pub open spec fn ends_with(s: Seq<char>, suffix: Seq<char>) -> bool {
    suffix.len() <= s.len() && s.subrange(s.len() - suffix.len(), s.len() as int) == suffix
}

/// A statement that only registers a QRL: a call of a function whose name ends
/// in `Qrl` or `QrlDEV`.
pub open spec fn qrl_call_stmt(s: MainStmt) -> bool {
    s.call_callee matches Some(c) && (ends_with(c@, "Qrl"@) || ends_with(c@, "QrlDEV"@))
}

/// Some statement other than a QRL registration references `n`.
pub open spec fn main_uses(stmts: Seq<MainStmt>, n: Seq<char>) -> bool {
    exists|i: int|
        0 <= i < stmts.len() && !qrl_call_stmt(#[trigger] stmts[i]) && views(stmts[i].refs@).contains(n)
}

fn ends_with_text(s: &str, suffix: &str) -> (r: bool)
    ensures
        r == ends_with(s@, suffix@),
{
    let v = chars_of(s);
    let p = chars_of(suffix);
    if p.len() > v.len() {
        return false;
    }
    let r = matches_at(&v, &p, v.len() - p.len());
    r
}

fn is_qrl_call_stmt(s: &MainStmt) -> (r: bool)
    ensures
        r == qrl_call_stmt(*s),
{
    match &s.call_callee {
        Some(c) => ends_with_text(c.as_str(), "Qrl") || ends_with_text(c.as_str(), "QrlDEV"),
        None => false,
    }
}

/// The root-level names that the root module's own code still references:
/// those of every statement but the QRL registrations, each once.
pub fn build_main_module_usage_set(stmts: &Vec<MainStmt>, _segments: &Vec<SegmentRecord>) -> (r: Vec<
    String,
>)
    ensures
        distinct_strings(views(r@)),
        forall|n: Seq<char>| #[trigger] views(r@).contains(n) <==> main_uses(stmts@, n),
{
    let mut usage: Vec<String> = Vec::new();
    let mut i: usize = 0;
    while i < stmts.len()
        invariant
            i <= stmts@.len(),
            distinct_strings(views(usage@)),
            forall|n: Seq<char>|
                #[trigger] views(usage@).contains(n) <==> exists|k: int|
                    0 <= k < i && !qrl_call_stmt(#[trigger] stmts@[k]) && views(stmts@[k].refs@).contains(n),
        decreases stmts@.len() - i,
    {
        let ghost before = views(usage@);
        if !is_qrl_call_stmt(&stmts[i]) {
            let refs = &stmts[i].refs;
            let mut j: usize = 0;
            while j < refs.len()
                invariant
                    j <= refs@.len(),
                    refs@ == stmts@[i as int].refs@,
                    distinct_strings(views(usage@)),
                    forall|n: Seq<char>|
                        #[trigger] views(usage@).contains(n) <==> (before.contains(n) || views(
                            refs@,
                        ).take(j as int).contains(n)),
                decreases refs@.len() - j,
            {
                let ghost mid = views(usage@);
                proof {
                    assert(views(refs@).take(j + 1) =~= views(refs@).take(j as int).push(refs@[j as int]@));
                }
                if !contains_str(&usage, refs[j].as_str()) {
                    usage.push(crate::copy_string(&refs[j]));
                    proof {
                        assert(views(usage@) =~= mid.push(refs@[j as int]@));
                        assert(views(usage@)[views(usage@).len() - 1] == refs@[j as int]@);
                        assert forall|n: Seq<char>| mid.contains(n) implies #[trigger] views(usage@).contains(n) by {
                            let a = choose|a: int| 0 <= a < mid.len() && mid[a] == n;
                            assert(views(usage@)[a] == n);
                        }
                        assert forall|n: Seq<char>| #[trigger] views(usage@).contains(n) implies mid.contains(n) || n == refs@[j as int]@ by {
                            let a = choose|a: int| 0 <= a < views(usage@).len() && #[trigger] views(usage@)[a] == n;
                            if a < mid.len() {
                                assert(mid[a] == n);
                            }
                        }
                    }
                }
                proof {
                    assert forall|n: Seq<char>| #[trigger] views(usage@).contains(n) <==> (before.contains(n)
                        || views(refs@).take(j + 1).contains(n)) by {
                        if views(refs@).take(j + 1).contains(n) && !views(refs@).take(j as int).contains(n) {
                            let a = choose|a: int| 0 <= a < j + 1 && #[trigger] views(refs@).take(j + 1)[a] == n;
                            if a < j {
                                assert(views(refs@).take(j as int)[a] == n);
                            }
                        }
                        if views(refs@).take(j as int).contains(n) {
                            let a = choose|a: int| 0 <= a < j && #[trigger] views(refs@).take(j as int)[a] == n;
                            assert(views(refs@).take(j + 1)[a] == n);
                        }
                        if n == refs@[j as int]@ {
                            assert(views(refs@).take(j + 1)[j as int] == n);
                        }
                    }
                }
                j += 1;
            }
            proof {
                assert(views(refs@).take(refs@.len() as int) =~= views(refs@));
            }
        }
        proof {
            assert forall|n: Seq<char>| #[trigger] views(usage@).contains(n) <==> exists|k: int|
                0 <= k < i + 1 && !qrl_call_stmt(#[trigger] stmts@[k]) && views(stmts@[k].refs@).contains(n) by {
                if exists|k: int|
                    0 <= k < i + 1 && !qrl_call_stmt(#[trigger] stmts@[k]) && views(stmts@[k].refs@).contains(n) {
                    let k = choose|k: int|
                        0 <= k < i + 1 && !qrl_call_stmt(#[trigger] stmts@[k]) && views(stmts@[k].refs@).contains(n);
                    if k < i {
                        assert(before.contains(n));
                    }
                }
            }
        }
        i += 1;
    }
    usage
}

/// A segment refers to `var`: among its import names, or as a whole word of its code.
pub open spec fn segment_uses(seg: SegmentRecord, var: Seq<char>) -> bool {
    ||| seg.local_idents@.map_values(|s: String| s@).contains(var)
    ||| (seg.expr matches Some(e) && contains_whole_word_spec(
        vstd::utf8::encode_utf8(e@),
        vstd::utf8::encode_utf8(var),
    ))
}

/// The indices of the segments that refer to `var`, in increasing order.
pub open spec fn using_segments(segs: Seq<SegmentRecord>, var: Seq<char>) -> Seq<int>
    decreases segs.len(),
{
    if segs.len() == 0 {
        Seq::empty()
    } else {
        let prev = using_segments(segs.drop_last(), var);
        if segment_uses(segs.last(), var) {
            prev.push(segs.len() - 1)
        } else {
            prev
        }
    }
}

/// The indices as integers.
pub open spec fn ints(v: Seq<usize>) -> Seq<int> {
    v.map_values(|u: usize| u as int)
}

fn uses_var(seg: &SegmentRecord, var: &str) -> (r: bool)
    ensures
        r == segment_uses(*seg, var@),
{
    let mut i: usize = 0;
    let ghost names = seg.local_idents@.map_values(|s: String| s@);
    while i < seg.local_idents.len()
        invariant
            i <= seg.local_idents@.len(),
            names == seg.local_idents@.map_values(|s: String| s@),
            forall|k: int| 0 <= k < i ==> names[k] != var@,
        decreases seg.local_idents@.len() - i,
    {
        if str_eq(seg.local_idents[i].as_str(), var) {
            assert(names[i as int] == var@);
            return true;
        }
        i += 1;
    }
    assert(!names.contains(var@));
    match &seg.expr {
        Some(e) => contains_whole_word(e.as_str(), var),
        None => false,
    }
}

/// For each root declaration, in order, the indices of the segments that refer
/// to it.
pub fn build_root_var_usage_map(root_deps: &Vec<(String, RootVarInfo)>, segments: &Vec<
    SegmentRecord,
>) -> (r: Vec<(String, Vec<usize>)>)
    ensures
        r@.len() == root_deps@.len(),
        forall|k: int|
            0 <= k < r@.len() ==> {
                &&& (#[trigger] r@[k]).0@ == root_deps@[k].0@
                &&& ints(r@[k].1@) == using_segments(segments@, root_deps@[k].0@)
            },
{
    let mut r: Vec<(String, Vec<usize>)> = Vec::new();
    let mut k: usize = 0;
    while k < root_deps.len()
        invariant
            k <= root_deps@.len(),
            r@.len() == k,
            forall|q: int|
                0 <= q < k ==> {
                    &&& (#[trigger] r@[q]).0@ == root_deps@[q].0@
                    &&& ints(r@[q].1@) == using_segments(segments@, root_deps@[q].0@)
                },
        decreases root_deps@.len() - k,
    {
        let var = root_deps[k].0.as_str();
        let mut idx: Vec<usize> = Vec::new();
        let mut i: usize = 0;
        while i < segments.len()
            invariant
                i <= segments@.len(),
                var@ == root_deps@[k as int].0@,
                ints(idx@) == using_segments(segments@.take(i as int), var@),
            decreases segments@.len() - i,
        {
            assert(segments@.take(i + 1).drop_last() =~= segments@.take(i as int));
            if uses_var(&segments[i], var) {
                idx.push(i);
                assert(ints(idx@) =~= ints(idx@.drop_last()).push(i as int));
            }
            i += 1;
        }
        assert(segments@.take(segments@.len() as int) =~= segments@);
        r.push((crate::copy_string(&root_deps[k].0), idx));
        k += 1;
    }
    r
}

// ---------------------------------------------------------------------------
// Migration decision
// ---------------------------------------------------------------------------

/// No name occurs twice in a keyed list (the keys of a map).
pub open spec fn distinct_keys<V>(v: Seq<(String, V)>) -> bool {
    forall|i: int, j: int| 0 <= i < j < v.len() ==> (#[trigger] v[i]).0@ != (#[trigger] v[j]).0@
}

/// The list has an entry named `k`.
pub open spec fn has_key<V>(v: Seq<(String, V)>, k: Seq<char>) -> bool {
    exists|i: int| 0 <= i < v.len() && (#[trigger] v[i]).0@ == k
}

/// The position of the entry named `k` (meaningful when there is one).
pub open spec fn key_index<V>(v: Seq<(String, V)>, k: Seq<char>) -> int {
    choose|i: int| 0 <= i < v.len() && (#[trigger] v[i]).0@ == k
}

/// The root declaration named `n`.
pub open spec fn root_info(rd: Seq<(String, RootVarInfo)>, n: Seq<char>) -> RootVarInfo {
    rd[key_index(rd, n)].1
}

/// The names that the root declaration `n` depends on.
pub open spec fn deps_of(rd: Seq<(String, RootVarInfo)>, n: Seq<char>) -> Seq<Seq<char>> {
    root_info(rd, n).depends_on@.map_values(|s: String| s@)
}

/// The segments that use `n`.
pub open spec fn usage_of(um: Seq<(String, Vec<usize>)>, n: Seq<char>) -> Seq<usize> {
    um[key_index(um, n)].1@
}

/// The one segment that uses `n`, for a candidate.
pub open spec fn seg_of(um: Seq<(String, Vec<usize>)>, n: Seq<char>) -> usize {
    usage_of(um, n)[0]
}

/// A root declaration may migrate, before looking at its dependencies: it is
/// neither imported nor exported, exactly one segment uses it, and the root
/// module's own code does not.
pub open spec fn initial_candidate(
    rd: Seq<(String, RootVarInfo)>,
    um: Seq<(String, Vec<usize>)>,
    main: Seq<Seq<char>>,
    n: Seq<char>,
) -> bool {
    &&& has_key(rd, n)
    &&& !root_info(rd, n).is_imported
    &&& !root_info(rd, n).is_exported
    &&& has_key(um, n)
    &&& usage_of(um, n).len() == 1
    &&& !main.contains(n)
}

/// A dependency that can stay behind: no root declaration of that name, or an
/// imported or exported one.
pub open spec fn safe_dep(rd: Seq<(String, RootVarInfo)>, d: Seq<char>) -> bool {
    !has_key(rd, d) || root_info(rd, d).is_imported || root_info(rd, d).is_exported
}

/// Every dependency of `n` migrates with it into the same segment, or can stay.
pub open spec fn deps_follow(
    rd: Seq<(String, RootVarInfo)>,
    um: Seq<(String, Vec<usize>)>,
    moved: Set<Seq<char>>,
    n: Seq<char>,
) -> bool {
    forall|d: Seq<char>|
        #![trigger deps_of(rd, n).contains(d)]
        deps_of(rd, n).contains(d) ==> if moved.contains(d) {
            seg_of(um, d) == seg_of(um, n)
        } else {
            safe_dep(rd, d)
        }
}

/// A set of names that may migrate together: each is a candidate and each
/// one's dependencies follow it.
pub open spec fn migration_closed(
    rd: Seq<(String, RootVarInfo)>,
    um: Seq<(String, Vec<usize>)>,
    main: Seq<Seq<char>>,
    moved: Set<Seq<char>>,
) -> bool {
    forall|n: Seq<char>|
        #[trigger] moved.contains(n) ==> initial_candidate(rd, um, main, n) && deps_follow(
            rd,
            um,
            moved,
            n,
        )
}

pub(crate) fn find_key<V>(v: &Vec<(String, V)>, k: &str) -> (r: Option<usize>)
    requires
        distinct_keys(v@),
    ensures
        match r {
            Some(i) => i < v@.len() && v@[i as int].0@ == k@ && has_key(v@, k@) && key_index(
                v@,
                k@,
            ) == i,
            None => !has_key(v@, k@),
        },
{
    let mut i: usize = 0;
    while i < v.len()
        invariant
            i <= v@.len(),
            distinct_keys(v@),
            forall|j: int| 0 <= j < i ==> (#[trigger] v@[j]).0@ != k@,
        decreases v@.len() - i,
    {
        if str_eq(v[i].0.as_str(), k) {
            assert(has_key(v@, k@));
            let ghost c = key_index(v@, k@);
            assert(v@[c].0@ == k@);
            assert(c == i) by {
                if c != i {
                    if c < i {
                    } else {
                        assert(v@[i as int].0@ != v@[c].0@);
                    }
                }
            }
            return Some(i);
        }
        i += 1;
    }
    None
}

proof fn lemma_has_key_push<V>(v: Seq<(String, V)>, x: (String, V))
    ensures
        forall|m: Seq<char>| has_key(v.push(x), m) <==> (has_key(v, m) || x.0@ == m),
{
    assert forall|m: Seq<char>| has_key(v.push(x), m) <==> (has_key(v, m) || x.0@ == m) by {
        if has_key(v.push(x), m) {
            let k = choose|k: int| 0 <= k < v.push(x).len() && (#[trigger] v.push(x)[k]).0@ == m;
            if k < v.len() {
                assert(v[k] == v.push(x)[k]);
            }
        }
        if has_key(v, m) {
            let k = choose|k: int| 0 <= k < v.len() && (#[trigger] v[k]).0@ == m;
            assert(v.push(x)[k] == v[k]);
        }
        if x.0@ == m {
            assert(v.push(x)[v.len() as int] == x);
        }
    }
}

/// The names of a keyed list, as a set.
pub open spec fn key_set<V>(v: Seq<(String, V)>) -> Set<Seq<char>> {
    Set::new(|n: Seq<char>| has_key(v, n))
}

/// A working list of migration candidates: distinct names, each an initial
/// candidate paired with the one segment that uses it.
pub open spec fn candidates_ok(
    rd: Seq<(String, RootVarInfo)>,
    um: Seq<(String, Vec<usize>)>,
    main: Seq<Seq<char>>,
    cur: Seq<(String, usize)>,
) -> bool {
    &&& distinct_keys(cur)
    &&& forall|k: int|
        0 <= k < cur.len() ==> initial_candidate(rd, um, main, (#[trigger] cur[k]).0@) && cur[k].1
            == seg_of(um, cur[k].0@)
}

fn initial_candidates(
    root_deps: &Vec<(String, RootVarInfo)>,
    usage_map: &Vec<(String, Vec<usize>)>,
    main_usage: &Vec<String>,
) -> (cur: Vec<(String, usize)>)
    requires
        distinct_keys(root_deps@),
        distinct_keys(usage_map@),
    ensures
        candidates_ok(root_deps@, usage_map@, main_usage@.map_values(|s: String| s@), cur@),
        forall|n: Seq<char>|
            has_key(cur@, n) <==> initial_candidate(
                root_deps@,
                usage_map@,
                main_usage@.map_values(|s: String| s@),
                n,
            ),
{
    let ghost rd = root_deps@;
    let ghost um = usage_map@;
    let ghost main = main_usage@.map_values(|s: String| s@);
    let mut cur: Vec<(String, usize)> = Vec::new();
    let mut i: usize = 0;
    while i < root_deps.len()
        invariant
            i <= rd.len(),
            rd == root_deps@,
            um == usage_map@,
            main == main_usage@.map_values(|s: String| s@),
            distinct_keys(rd),
            distinct_keys(um),
            candidates_ok(rd, um, main, cur@),
            forall|n: Seq<char>|
                has_key(cur@, n) <==> (initial_candidate(rd, um, main, n) && exists|q: int|
                    0 <= q < i && (#[trigger] rd[q]).0@ == n),
        decreases rd.len() - i,
    {
        let name = root_deps[i].0.as_str();
        let info = &root_deps[i].1;
        let ghost n = name@;
        proof {
            assert(has_key(rd, n));
            let c = key_index(rd, n);
            if c != i {
                if c < i {
                    assert(rd[c].0@ != rd[i as int].0@);
                } else {
                    assert(rd[i as int].0@ != rd[c].0@);
                }
            }
            assert(root_info(rd, n) == *info);
        }
        let ghost before = cur@;
        let mut pushed = false;
        if !info.is_imported && !info.is_exported {
            match find_key(usage_map, name) {
                Some(j) => {
                    if usage_map[j].1.len() == 1 && !contains_str(main_usage, name) {
                        let seg = usage_map[j].1[0];
                        cur.push((crate::copy_string(&root_deps[i].0), seg));
                        pushed = true;
                    }
                },
                None => {},
            }
        }
        proof {
            assert(pushed == initial_candidate(rd, um, main, n));
            if pushed {
                assert(!has_key(before, n)) by {
                    if has_key(before, n) {
                        let q = choose|q: int| 0 <= q < i && (#[trigger] rd[q]).0@ == n;
                        assert(rd[q].0@ != rd[i as int].0@);
                    }
                }
                lemma_has_key_push(before, cur@.last());
                assert(cur@ == before.push(cur@.last()));
                assert(cur@.last().0@ == n);
                assert forall|a: int, b: int| 0 <= a < b < cur@.len() implies (
                #[trigger] cur@[a]).0@ != (#[trigger] cur@[b]).0@ by {
                    assert(cur@[a] == before[a]);
                    if b == cur@.len() - 1 {
                        if before[a].0@ == n {
                            assert(has_key(before, n));
                        }
                    } else {
                        assert(cur@[b] == before[b]);
                    }
                }
                assert forall|k: int| 0 <= k < cur@.len() implies initial_candidate(
                    rd,
                    um,
                    main,
                    (#[trigger] cur@[k]).0@,
                ) && cur@[k].1 == seg_of(um, cur@[k].0@) by {
                    if k < before.len() {
                        assert(cur@[k] == before[k]);
                    }
                }
            } else {
                assert(cur@ == before);
            }
            assert forall|m: Seq<char>|
                has_key(cur@, m) <==> (initial_candidate(rd, um, main, m) && exists|q: int|
                    0 <= q < i + 1 && (#[trigger] rd[q]).0@ == m) by {
                assert(has_key(cur@, m) == (has_key(before, m) || (pushed && m == n)));
                if exists|q: int| 0 <= q < i + 1 && (#[trigger] rd[q]).0@ == m {
                    let q = choose|q: int| 0 <= q < i + 1 && (#[trigger] rd[q]).0@ == m;
                    if q < i {
                        assert(exists|q: int| 0 <= q < i && (#[trigger] rd[q]).0@ == m);
                    }
                }
                if exists|q: int| 0 <= q < i && (#[trigger] rd[q]).0@ == m {
                    let q = choose|q: int| 0 <= q < i && (#[trigger] rd[q]).0@ == m;
                    assert(0 <= q < i + 1 && rd[q].0@ == m);
                }
                if m == n {
                    assert(0 <= i < i + 1 && rd[i as int].0@ == m);
                }
            }
        }
        i += 1;
    }
    cur
}

/// The dependency `d` keeps a candidate assigned to `seg` from migrating, when
/// `moved` are the names that migrate.
pub open spec fn blocks(
    rd: Seq<(String, RootVarInfo)>,
    um: Seq<(String, Vec<usize>)>,
    moved: Set<Seq<char>>,
    d: Seq<char>,
    seg: usize,
) -> bool {
    if moved.contains(d) {
        seg_of(um, d) != seg
    } else {
        !safe_dep(rd, d)
    }
}

fn candidate_blocked(
    root_deps: &Vec<(String, RootVarInfo)>,
    cur: &Vec<(String, usize)>,
    k: usize,
    Ghost(um): Ghost<Seq<(String, Vec<usize>)>>,
    Ghost(main): Ghost<Seq<Seq<char>>>,
) -> (r: bool)
    requires
        distinct_keys(root_deps@),
        candidates_ok(root_deps@, um, main, cur@),
        k < cur@.len(),
    ensures
        r == !deps_follow(root_deps@, um, key_set(cur@), cur@[k as int].0@),
{
    let ghost rd = root_deps@;
    let ghost moved = key_set(cur@);
    let name = cur[k].0.as_str();
    let seg = cur[k].1;
    let ghost n = name@;
    assert(initial_candidate(rd, um, main, n));
    let ri = match find_key(root_deps, name) {
        Some(ri) => ri,
        None => {
            proof {
                assert(false);
            }
            return false;
        },
    };
    let deps = &root_deps[ri].1.depends_on;
    let ghost dv = deps@.map_values(|s: String| s@);
    assert(dv == deps_of(rd, n));
    let mut q: usize = 0;
    while q < deps.len()
        invariant
            q <= deps@.len(),
            rd == root_deps@,
            distinct_keys(rd),
            candidates_ok(rd, um, main, cur@),
            moved == key_set(cur@),
            seg == seg_of(um, n),
            dv == deps@.map_values(|s: String| s@),
            dv == deps_of(rd, n),
            k < cur@.len(),
            n == cur@[k as int].0@,
            forall|p: int| 0 <= p < q ==> !blocks(rd, um, moved, #[trigger] dv[p], seg),
        decreases deps@.len() - q,
    {
        let d = deps[q].as_str();
        assert(dv[q as int] == d@);
        let b = match find_key(cur, d) {
            Some(j) => {
                assert(moved.contains(d@));
                cur[j].1 != seg
            },
            None => {
                assert(!moved.contains(d@));
                match find_key(root_deps, d) {
                    Some(x) => !(root_deps[x].1.is_imported || root_deps[x].1.is_exported),
                    None => false,
                }
            },
        };
        assert(b == blocks(rd, um, moved, d@, seg));
        if b {
            assert(dv.contains(d@));
            assert(deps_of(rd, n).contains(d@));
            assert(!deps_follow(rd, um, moved, n)) by {
                if deps_follow(rd, um, moved, n) {
                    assert(if moved.contains(d@) {
                        seg_of(um, d@) == seg_of(um, n)
                    } else {
                        safe_dep(rd, d@)
                    });
                }
            }
            return true;
        }
        q += 1;
    }
    assert forall|d: Seq<char>| #[trigger] deps_of(rd, n).contains(d) implies !blocks(
        rd,
        um,
        moved,
        d,
        seg,
    ) by {
        let p = choose|p: int| 0 <= p < dv.len() && dv[p] == d;
        assert(!blocks(rd, um, moved, dv[p], seg));
    }
    false
}

/// Keeping a candidate blocked in `cur` can only keep it blocked: a set of
/// names that migrate together inside `cur` never loses a member in a round.
proof fn lemma_closed_not_blocked(
    rd: Seq<(String, RootVarInfo)>,
    um: Seq<(String, Vec<usize>)>,
    main: Seq<Seq<char>>,
    moved: Set<Seq<char>>,
    cur: Set<Seq<char>>,
    x: Seq<char>,
)
    requires
        migration_closed(rd, um, main, moved),
        moved.subset_of(cur),
        forall|n: Seq<char>| #[trigger] cur.contains(n) ==> initial_candidate(rd, um, main, n),
        moved.contains(x),
    ensures
        deps_follow(rd, um, cur, x),
{
    assert(deps_follow(rd, um, moved, x));
    assert forall|d: Seq<char>| #[trigger] deps_of(rd, x).contains(d) implies (if cur.contains(d) {
        seg_of(um, d) == seg_of(um, x)
    } else {
        safe_dep(rd, d)
    }) by {
        if !moved.contains(d) && cur.contains(d) {
            assert(initial_candidate(rd, um, main, d));
        }
    }
}

fn migration_round(
    root_deps: &Vec<(String, RootVarInfo)>,
    cur: &Vec<(String, usize)>,
    Ghost(um): Ghost<Seq<(String, Vec<usize>)>>,
    Ghost(main): Ghost<Seq<Seq<char>>>,
) -> (r: (Vec<(String, usize)>, bool))
    requires
        distinct_keys(root_deps@),
        candidates_ok(root_deps@, um, main, cur@),
    ensures
        candidates_ok(root_deps@, um, main, r.0@),
        forall|n: Seq<char>|
            has_key(r.0@, n) <==> (has_key(cur@, n) && deps_follow(
                root_deps@,
                um,
                key_set(cur@),
                n,
            )),
        r.1 ==> r.0@.len() < cur@.len(),
        !r.1 ==> forall|n: Seq<char>| has_key(cur@, n) ==> deps_follow(root_deps@, um, key_set(cur@), n),
{
    let ghost rd = root_deps@;
    let ghost moved = key_set(cur@);
    let mut next: Vec<(String, usize)> = Vec::new();
    let mut changed = false;
    let mut k: usize = 0;
    while k < cur.len()
        invariant
            k <= cur@.len(),
            rd == root_deps@,
            moved == key_set(cur@),
            distinct_keys(rd),
            candidates_ok(rd, um, main, cur@),
            candidates_ok(rd, um, main, next@),
            next@.len() + (if changed { 1int } else { 0int }) <= k,
            !changed ==> forall|p: int| 0 <= p < k ==> deps_follow(rd, um, moved, (#[trigger] cur@[p]).0@),
            forall|n: Seq<char>|
                has_key(next@, n) <==> (exists|p: int| 0 <= p < k && (#[trigger] cur@[p]).0@ == n
                    && deps_follow(rd, um, moved, n)),
            forall|p: int| 0 <= p < next@.len() ==> exists|q: int| 0 <= q < k && (#[trigger] next@[p]).0@ == (#[trigger] cur@[q]).0@,
        decreases cur@.len() - k,
    {
        let blocked = candidate_blocked(root_deps, cur, k, Ghost(um), Ghost(main));
        let ghost before = next@;
        let ghost n = cur@[k as int].0@;
        if blocked {
            changed = true;
        } else {
            let entry = (crate::copy_string(&cur[k].0), cur[k].1);
            next.push(entry);
            proof {
                lemma_has_key_push(before, next@.last());
                assert(next@ == before.push(next@.last()));
                assert(!has_key(before, n)) by {
                    if has_key(before, n) {
                        let p0 = choose|p0: int| 0 <= p0 < before.len() && (#[trigger] before[p0]).0@ == n;
                        let q = choose|q: int| 0 <= q < k && (#[trigger] before[p0]).0@ == (#[trigger] cur@[q]).0@;
                        assert(cur@[q].0@ != cur@[k as int].0@);
                    }
                }
                assert forall|a: int, b: int| 0 <= a < b < next@.len() implies (
                #[trigger] next@[a]).0@ != (#[trigger] next@[b]).0@ by {
                    assert(next@[a] == before[a]);
                    if b == next@.len() - 1 {
                        if before[a].0@ == n {
                            assert(has_key(before, n));
                        }
                    } else {
                        assert(next@[b] == before[b]);
                    }
                }
                assert forall|p: int| 0 <= p < next@.len() implies initial_candidate(
                    rd,
                    um,
                    main,
                    (#[trigger] next@[p]).0@,
                ) && next@[p].1 == seg_of(um, next@[p].0@) by {
                    if p < before.len() {
                        assert(next@[p] == before[p]);
                    }
                }
                assert forall|p: int| 0 <= p < next@.len() implies exists|q: int|
                    0 <= q < k + 1 && (#[trigger] next@[p]).0@ == (#[trigger] cur@[q]).0@ by {
                    if p < before.len() {
                        assert(next@[p] == before[p]);
                        let q = choose|q: int| 0 <= q < k && (#[trigger] before[p]).0@ == (#[trigger] cur@[q]).0@;
                        assert(0 <= q < k + 1 && next@[p].0@ == cur@[q].0@);
                    } else {
                        assert(next@[p].0@ == cur@[k as int].0@);
                    }
                }
            }
        }
        proof {
            assert forall|m: Seq<char>|
                has_key(next@, m) <==> (exists|p: int| 0 <= p < k + 1 && (#[trigger] cur@[p]).0@ == m
                    && deps_follow(rd, um, moved, m)) by {
                if !blocked {
                    assert(has_key(next@, m) == (has_key(before, m) || m == n));
                } else {
                    assert(next@ == before);
                }
                if exists|p: int| 0 <= p < k + 1 && (#[trigger] cur@[p]).0@ == m && deps_follow(rd, um, moved, m) {
                    let p = choose|p: int| 0 <= p < k + 1 && (#[trigger] cur@[p]).0@ == m && deps_follow(rd, um, moved, m);
                    if p < k {
                        assert(exists|p: int| 0 <= p < k && (#[trigger] cur@[p]).0@ == m && deps_follow(rd, um, moved, m));
                    }
                }
                if exists|p: int| 0 <= p < k && (#[trigger] cur@[p]).0@ == m && deps_follow(rd, um, moved, m) {
                    let p = choose|p: int| 0 <= p < k && (#[trigger] cur@[p]).0@ == m && deps_follow(rd, um, moved, m);
                    assert(0 <= p < k + 1 && cur@[p].0@ == m);
                }
                if m == n {
                    assert(0 <= k < k + 1 && cur@[k as int].0@ == m);
                }
            }
            if blocked {
                assert forall|p: int| 0 <= p < next@.len() implies exists|q: int|
                    0 <= q < k + 1 && (#[trigger] next@[p]).0@ == (#[trigger] cur@[q]).0@ by {
                    let q = choose|q: int| 0 <= q < k && (#[trigger] next@[p]).0@ == (#[trigger] cur@[q]).0@;
                    assert(0 <= q < k + 1 && next@[p].0@ == cur@[q].0@);
                }
            }
        }
        k += 1;
    }
    proof {
        if !changed {
            assert forall|m: Seq<char>| has_key(cur@, m) implies deps_follow(rd, um, moved, m) by {
                let p = choose|p: int| 0 <= p < cur@.len() && (#[trigger] cur@[p]).0@ == m;
            }
        }
        assert forall|m: Seq<char>|
            has_key(next@, m) <==> (has_key(cur@, m) && deps_follow(rd, um, moved, m)) by {
            if has_key(cur@, m) && deps_follow(rd, um, moved, m) {
                let p = choose|p: int| 0 <= p < cur@.len() && (#[trigger] cur@[p]).0@ == m;
                assert(0 <= p < cur@.len() && cur@[p].0@ == m && deps_follow(rd, um, moved, m));
            }
        }
    }
    (next, changed)
}

proof fn lemma_candidates_are_initial(
    rd: Seq<(String, RootVarInfo)>,
    um: Seq<(String, Vec<usize>)>,
    main: Seq<Seq<char>>,
    cur: Seq<(String, usize)>,
)
    requires
        candidates_ok(rd, um, main, cur),
    ensures
        forall|n: Seq<char>| #[trigger] key_set(cur).contains(n) ==> initial_candidate(rd, um, main, n),
{
    assert forall|n: Seq<char>| #[trigger] key_set(cur).contains(n) implies initial_candidate(
        rd,
        um,
        main,
        n,
    ) by {
        let k = choose|k: int| 0 <= k < cur.len() && (#[trigger] cur[k]).0@ == n;
    }
}

/// The candidates that survive the safety fixpoint: the largest set of
/// initial candidates whose dependencies all follow them.
fn migrating_candidates(
    root_deps: &Vec<(String, RootVarInfo)>,
    usage_map: &Vec<(String, Vec<usize>)>,
    main_usage: &Vec<String>,
) -> (cur: Vec<(String, usize)>)
    requires
        distinct_keys(root_deps@),
        distinct_keys(usage_map@),
    ensures
        candidates_ok(root_deps@, usage_map@, main_usage@.map_values(|s: String| s@), cur@),
        migration_closed(
            root_deps@,
            usage_map@,
            main_usage@.map_values(|s: String| s@),
            key_set(cur@),
        ),
        forall|moved: Set<Seq<char>>|
            migration_closed(root_deps@, usage_map@, main_usage@.map_values(|s: String| s@), moved)
                ==> moved.subset_of(key_set(cur@)),
{
    let ghost rd = root_deps@;
    let ghost um = usage_map@;
    let ghost main = main_usage@.map_values(|s: String| s@);
    let mut cur = initial_candidates(root_deps, usage_map, main_usage);
    assert forall|moved: Set<Seq<char>>| migration_closed(rd, um, main, moved) implies moved.subset_of(
        key_set(cur@),
    ) by {
        assert forall|x: Seq<char>| moved.contains(x) implies key_set(cur@).contains(x) by {
            assert(initial_candidate(rd, um, main, x));
        }
    }
    loop
        invariant
            rd == root_deps@,
            um == usage_map@,
            main == main_usage@.map_values(|s: String| s@),
            distinct_keys(rd),
            candidates_ok(rd, um, main, cur@),
            forall|moved: Set<Seq<char>>|
                migration_closed(rd, um, main, moved) ==> moved.subset_of(key_set(cur@)),
        ensures
            candidates_ok(rd, um, main, cur@),
            migration_closed(rd, um, main, key_set(cur@)),
            forall|moved: Set<Seq<char>>|
                migration_closed(rd, um, main, moved) ==> moved.subset_of(key_set(cur@)),
        decreases cur@.len(),
    {
        let (next, changed) = migration_round(root_deps, &cur, Ghost(um), Ghost(main));
        proof {
            lemma_candidates_are_initial(rd, um, main, cur@);
        }
        if !changed {
            assert forall|n: Seq<char>| #[trigger] key_set(cur@).contains(n) implies initial_candidate(
                rd,
                um,
                main,
                n,
            ) && deps_follow(rd, um, key_set(cur@), n) by {
                assert(has_key(cur@, n));
            }
            break;
        }
        proof {
            assert forall|moved: Set<Seq<char>>| migration_closed(rd, um, main, moved) implies moved.subset_of(
                key_set(next@),
            ) by {
                assert forall|x: Seq<char>| moved.contains(x) implies key_set(next@).contains(x) by {
                    assert(key_set(cur@).contains(x));
                    lemma_closed_not_blocked(rd, um, main, moved, key_set(cur@), x);
                    assert(has_key(next@, x));
                }
            }
        }
        cur = next;
    }
    cur
}

/// `out` lists the names of `moved` grouped by their segment: segments in
/// increasing order, each with its names sorted, no name twice, every name of
/// `moved` under its own segment and no other name.
pub open spec fn grouped_by_segment(
    um: Seq<(String, Vec<usize>)>,
    moved: Set<Seq<char>>,
    out: Seq<(usize, Vec<String>)>,
) -> bool {
    &&& forall|g: int, h: int| 0 <= g < h < out.len() ==> (#[trigger] out[g]).0 < (#[trigger] out[h]).0
    &&& forall|g: int|
        0 <= g < out.len() ==> {
            &&& (#[trigger] out[g]).1@.len() > 0
            &&& sorted_lex(views(out[g].1@))
            &&& distinct_strings(views(out[g].1@))
            &&& forall|m: Seq<char>|
                #[trigger] views(out[g].1@).contains(m) ==> moved.contains(m) && seg_of(um, m)
                    == out[g].0
        }
    &&& forall|m: Seq<char>|
        #[trigger] moved.contains(m) ==> exists|g: int|
            0 <= g < out.len() && (#[trigger] views(out[g].1@)).contains(m)
}

/// `out` is the migration decision: the greatest set of names that may
/// migrate together, grouped by the segment each moves into.
pub open spec fn migration_decision(
    rd: Seq<(String, RootVarInfo)>,
    um: Seq<(String, Vec<usize>)>,
    main: Seq<Seq<char>>,
    out: Seq<(usize, Vec<String>)>,
) -> bool {
    exists|moved: Set<Seq<char>>|
        {
            &&& migration_closed(rd, um, main, moved)
            &&& forall|other: Set<Seq<char>>| migration_closed(rd, um, main, other) ==> other.subset_of(moved)
            &&& grouped_by_segment(um, moved, out)
        }
}

/// Some candidate among the first `k` is assigned to segment `s`.
pub open spec fn seg_used(cur: Seq<(String, usize)>, k: int, s: usize) -> bool {
    exists|p: int| 0 <= p < k && (#[trigger] cur[p]).1 == s
}

/// The distinct segments of the candidates, in increasing order.
fn candidate_segments(cur: &Vec<(String, usize)>) -> (segs: Vec<usize>)
    ensures
        forall|a: int, b: int| 0 <= a < b < segs@.len() ==> segs@[a] < segs@[b],
        forall|k: int| 0 <= k < cur@.len() ==> segs@.contains((#[trigger] cur@[k]).1),
        forall|a: int| 0 <= a < segs@.len() ==> seg_used(cur@, cur@.len() as int, #[trigger] segs@[a]),
{
    let mut segs: Vec<usize> = Vec::new();
    let mut k: usize = 0;
    while k < cur.len()
        invariant
            k <= cur@.len(),
            forall|a: int, b: int| 0 <= a < b < segs@.len() ==> segs@[a] < segs@[b],
            forall|p: int| 0 <= p < k ==> segs@.contains((#[trigger] cur@[p]).1),
            forall|a: int| 0 <= a < segs@.len() ==> seg_used(cur@, k as int, #[trigger] segs@[a]),
        decreases cur@.len() - k,
    {
        let s = cur[k].1;
        let mut j: usize = 0;
        while j < segs.len() && segs[j] < s
            invariant
                j <= segs@.len(),
                forall|a: int| 0 <= a < j ==> segs@[a] < s,
            decreases segs@.len() - j,
        {
            j += 1;
        }
        let ghost before = segs@;
        if j < segs.len() && segs[j] == s {
            assert(segs@.contains(s));
        } else {
            segs.insert(j, s);
            assert(segs@ =~= before.subrange(0, j as int).push(s) + before.subrange(
                j as int,
                before.len() as int,
            ));
            assert forall|i: int| 0 <= i < segs@.len() ==> #[trigger] segs@[i] == (if i < j {
                before[i]
            } else if i == j {
                s
            } else {
                before[i - 1]
            }) by {}
            assert forall|a: int, b: int| 0 <= a < b < segs@.len() implies segs@[a] < segs@[b] by {
                if b == j {
                } else if a == j {
                    if j < before.len() {
                        assert(before[j as int] >= s);
                        assert(before[j as int] != s);
                        assert(before[j as int] <= before[b - 1]);
                    }
                } else {
                }
            }
            assert forall|p: int| 0 <= p < k implies segs@.contains((#[trigger] cur@[p]).1) by {
                let a = choose|a: int| 0 <= a < before.len() && before[a] == cur@[p].1;
                if a < j {
                    assert(segs@[a] == cur@[p].1);
                } else {
                    assert(segs@[a + 1] == cur@[p].1);
                }
            }
            assert(segs@[j as int] == s);
            assert forall|a: int| 0 <= a < segs@.len() implies seg_used(cur@, k + 1, #[trigger] segs@[a]) by {
                if a == j {
                    assert(cur@[k as int].1 == segs@[a]);
                } else {
                    let b = if a < j { a } else { a - 1 };
                    assert(segs@[a] == before[b]);
                    assert(seg_used(cur@, k as int, before[b]));
                    let p = choose|p: int| 0 <= p < k && (#[trigger] cur@[p]).1 == before[b];
                    assert(0 <= p < k + 1 && cur@[p].1 == segs@[a]);
                }
            }
        }
        assert forall|a: int| 0 <= a < segs@.len() implies seg_used(cur@, k + 1, #[trigger] segs@[a]) by {
            if seg_used(cur@, k as int, segs@[a]) {
                let p = choose|p: int| 0 <= p < k && (#[trigger] cur@[p]).1 == segs@[a];
                assert(0 <= p < k + 1 && cur@[p].1 == segs@[a]);
            } else {
                assert(cur@[k as int].1 == segs@[a]);
            }
        }
        assert(segs@.contains(cur@[k as int].1));
        k += 1;
    }
    segs
}

/// The sorted names of the candidates assigned to segment `s`.
fn names_in_segment(cur: &Vec<(String, usize)>, s: usize) -> (names: Vec<String>)
    requires
        distinct_keys(cur@),
    ensures
        sorted_lex(views(names@)),
        distinct_strings(views(names@)),
        forall|m: Seq<char>|
            #[trigger] views(names@).contains(m) <==> exists|k: int|
                0 <= k < cur@.len() && (#[trigger] cur@[k]).0@ == m && cur@[k].1 == s,
{
    let mut names: Vec<String> = Vec::new();
    let mut k: usize = 0;
    while k < cur.len()
        invariant
            k <= cur@.len(),
            distinct_keys(cur@),
            sorted_lex(views(names@)),
            distinct_strings(views(names@)),
            forall|m: Seq<char>|
                #[trigger] views(names@).contains(m) <==> exists|p: int|
                    0 <= p < k && (#[trigger] cur@[p]).0@ == m && cur@[p].1 == s,
        decreases cur@.len() - k,
    {
        let ghost before = views(names@);
        let ghost n = cur@[k as int].0@;
        if cur[k].1 == s {
            assert(!before.contains(n)) by {
                if before.contains(n) {
                    let p = choose|p: int| 0 <= p < k && (#[trigger] cur@[p]).0@ == n && cur@[p].1 == s;
                    assert(cur@[p].0@ != cur@[k as int].0@);
                }
            }
            insert_sorted(&mut names, crate::copy_string(&cur[k].0));
        }
        assert forall|m: Seq<char>|
            #[trigger] views(names@).contains(m) <==> exists|p: int|
                0 <= p < k + 1 && (#[trigger] cur@[p]).0@ == m && cur@[p].1 == s by {
            if exists|p: int| 0 <= p < k && (#[trigger] cur@[p]).0@ == m && cur@[p].1 == s {
                let p = choose|p: int| 0 <= p < k && (#[trigger] cur@[p]).0@ == m && cur@[p].1 == s;
                assert(0 <= p < k + 1 && cur@[p].0@ == m && cur@[p].1 == s);
            }
            if exists|p: int| 0 <= p < k + 1 && (#[trigger] cur@[p]).0@ == m && cur@[p].1 == s {
                let p = choose|p: int| 0 <= p < k + 1 && (#[trigger] cur@[p]).0@ == m && cur@[p].1 == s;
                if p < k {
                    assert(exists|p: int| 0 <= p < k && (#[trigger] cur@[p]).0@ == m && cur@[p].1 == s);
                }
            }
        }
        k += 1;
    }
    names
}

/// Decide which root declarations migrate into which segment: a declaration
/// that is neither imported nor exported, used by exactly one segment and not
/// by the root module's own code migrates into that segment, unless one of its
/// dependencies is a root declaration that stays behind (neither imported nor
/// exported) or migrates elsewhere; this is repeated until nothing changes.
/// The result maps each segment index to the sorted names moving into it.
pub fn find_migratable_vars(
    root_deps: &Vec<(String, RootVarInfo)>,
    usage_map: &Vec<(String, Vec<usize>)>,
    main_usage: &Vec<String>,
) -> (r: Vec<(usize, Vec<String>)>)
    requires
        distinct_keys(root_deps@),
        distinct_keys(usage_map@),
    ensures
        migration_decision(root_deps@, usage_map@, views(main_usage@), r@),
{
    let ghost um = usage_map@;
    let cur = migrating_candidates(root_deps, usage_map, main_usage);
    let ghost moved = key_set(cur@);
    assert(views(main_usage@) == main_usage@.map_values(|s: String| s@));
    let segs = candidate_segments(&cur);
    let mut out: Vec<(usize, Vec<String>)> = Vec::new();
    let mut g: usize = 0;
    while g < segs.len()
        invariant
            g <= segs@.len(),
            out@.len() == g,
            moved == key_set(cur@),
            candidates_ok(root_deps@, um, views(main_usage@), cur@),
            forall|a: int, b: int| 0 <= a < b < segs@.len() ==> segs@[a] < segs@[b],
            forall|a: int| 0 <= a < segs@.len() ==> seg_used(cur@, cur@.len() as int, #[trigger] segs@[a]),
            forall|a: int| 0 <= a < g ==> (#[trigger] out@[a]).0 == segs@[a],
            forall|a: int|
                0 <= a < g ==> {
                    &&& (#[trigger] out@[a]).1@.len() > 0
                    &&& sorted_lex(views(out@[a].1@))
                    &&& distinct_strings(views(out@[a].1@))
                    &&& forall|m: Seq<char>|
                        #[trigger] views(out@[a].1@).contains(m) <==> exists|k: int|
                            0 <= k < cur@.len() && (#[trigger] cur@[k]).0@ == m && cur@[k].1 == out@[a].0
                },
        decreases segs@.len() - g,
    {
        let s = segs[g];
        let names = names_in_segment(&cur, s);
        proof {
            assert(seg_used(cur@, cur@.len() as int, segs@[g as int]));
            let k = choose|k: int| 0 <= k < cur@.len() && (#[trigger] cur@[k]).1 == segs@[g as int];
            assert(views(names@).contains(cur@[k].0@));
        }
        out.push((s, names));
        g += 1;
    }
    proof {
        assert forall|a: int, b: int| 0 <= a < b < out@.len() implies (#[trigger] out@[a]).0 < (#[trigger] out@[b]).0 by {
            assert(out@[a].0 == segs@[a] && out@[b].0 == segs@[b]);
        }
        assert forall|a: int| 0 <= a < out@.len() implies {
            &&& (#[trigger] out@[a]).1@.len() > 0
            &&& sorted_lex(views(out@[a].1@))
            &&& distinct_strings(views(out@[a].1@))
            &&& forall|m: Seq<char>|
                #[trigger] views(out@[a].1@).contains(m) ==> moved.contains(m) && seg_of(um, m) == out@[a].0
        } by {
            assert forall|m: Seq<char>| #[trigger] views(out@[a].1@).contains(m) implies moved.contains(m) && seg_of(um, m) == out@[a].0 by {
                let k = choose|k: int| 0 <= k < cur@.len() && (#[trigger] cur@[k]).0@ == m && cur@[k].1 == out@[a].0;
                assert(has_key(cur@, m));
            }
        }
        assert forall|m: Seq<char>| #[trigger] moved.contains(m) implies exists|a: int|
            0 <= a < out@.len() && (#[trigger] views(out@[a].1@)).contains(m) by {
            let k = choose|k: int| 0 <= k < cur@.len() && (#[trigger] cur@[k]).0@ == m;
            let a = choose|a: int| 0 <= a < segs@.len() && segs@[a] == cur@[k].1;
            assert(out@[a].0 == cur@[k].1);
            assert(views(out@[a].1@).contains(m));
        }
        assert(grouped_by_segment(um, moved, out@));
    }
    out
}

/// Law: in a migration decision, every dependency of a migrated declaration
/// is either migrated into the same segment or can stay in the root module
/// (it is imported, exported, or no root declaration at all).
pub proof fn lemma_migrated_dependencies_follow(
    rd: Seq<(String, RootVarInfo)>,
    um: Seq<(String, Vec<usize>)>,
    main: Seq<Seq<char>>,
    moved: Set<Seq<char>>,
    out: Seq<(usize, Vec<String>)>,
    g: int,
    n: Seq<char>,
    d: Seq<char>,
)
    requires
        migration_closed(rd, um, main, moved),
        grouped_by_segment(um, moved, out),
        0 <= g < out.len(),
        views(out[g].1@).contains(n),
        deps_of(rd, n).contains(d),
    ensures
        views(out[g].1@).contains(d) || safe_dep(rd, d),
{
    assert(moved.contains(n));
    assert(deps_follow(rd, um, moved, n));
    if moved.contains(d) {
        assert(seg_of(um, d) == seg_of(um, n));
        let h = choose|h: int| 0 <= h < out.len() && (#[trigger] views(out[h].1@)).contains(d);
        assert(out[h].0 == seg_of(um, d));
        if h != g {
            if h < g {
                assert(out[h].0 < out[g].0);
            } else {
                assert(out[g].0 < out[h].0);
            }
        }
    }
}

} // verus!
