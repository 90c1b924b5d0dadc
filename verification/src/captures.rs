//! Which identifiers of the enclosing scopes a segment captures.

use vstd::prelude::*;

use crate::code_move::views;
use crate::text::{contains_str, distinct_strings, insert_sorted, sorted_lex, str_eq};

verus! {

/// How a name in scope was declared.
#[derive(Debug, Clone, Copy, PartialEq, Eq, Structural)]
pub enum IdentType {
    /// `const` binding, captured by reference.
    Const,
    /// `let`/`var`/parameter binding, captured with getter and setter.
    Let,
    /// Function declaration (not capturable across a `$` boundary).
    Fn,
    /// Class declaration (not capturable across a `$` boundary).
    Class,
}

/// A declaration of the scope stack that a segment may capture: a `const` or
/// `let` binding named `name`.
pub open spec fn capturable_decl(all_decl: Seq<(String, IdentType)>, name: Seq<char>) -> bool {
    exists|k: int|
        0 <= k < all_decl.len() && (#[trigger] all_decl[k]).0@ == name && (all_decl[k].1
            == IdentType::Const || all_decl[k].1 == IdentType::Let)
}

fn is_capturable(all_decl: &Vec<(String, IdentType)>, name: &str) -> (r: bool)
    ensures
        r == capturable_decl(all_decl@, name@),
{
    let mut k: usize = 0;
    while k < all_decl.len()
        invariant
            k <= all_decl@.len(),
            forall|p: int|
                0 <= p < k ==> !((#[trigger] all_decl@[p]).0@ == name@ && (all_decl@[p].1
                    == IdentType::Const || all_decl@[p].1 == IdentType::Let)),
        decreases all_decl@.len() - k,
    {
        let kind_ok = match all_decl[k].1 {
            IdentType::Const | IdentType::Let => true,
            _ => false,
        };
        if kind_ok && str_eq(all_decl[k].0.as_str(), name) {
            return true;
        }
        k += 1;
    }
    false
}

/// The identifiers used inside a segment that name a `const` or `let` binding
/// of the enclosing scopes: sorted, without repeats.
pub fn compute_scoped_idents(all_idents: &Vec<String>, all_decl: &Vec<(String, IdentType)>) -> (r:
    Vec<String>)
    ensures
        sorted_lex(views(r@)),
        distinct_strings(views(r@)),
        forall|m: Seq<char>|
            #[trigger] views(r@).contains(m) <==> (views(all_idents@).contains(m) && capturable_decl(
                all_decl@,
                m,
            )),
{
    let ghost ids = views(all_idents@);
    let mut r: Vec<String> = Vec::new();
    let mut i: usize = 0;
    while i < all_idents.len()
        invariant
            i <= all_idents@.len(),
            ids == views(all_idents@),
            sorted_lex(views(r@)),
            distinct_strings(views(r@)),
            forall|m: Seq<char>|
                #[trigger] views(r@).contains(m) <==> (ids.take(i as int).contains(m)
                    && capturable_decl(all_decl@, m)),
        decreases all_idents@.len() - i,
    {
        let name = all_idents[i].as_str();
        assert(ids[i as int] == name@);
        let ghost before = views(r@);
        assert(ids.take(i + 1) =~= ids.take(i as int).push(name@));
        if is_capturable(all_decl, name) {
            let present = contains_str(&r, name);
            if !present {
                insert_sorted(&mut r, crate::copy_string(&all_idents[i]));
            }
        }
        assert forall|m: Seq<char>|
            #[trigger] views(r@).contains(m) <==> (ids.take(i + 1).contains(m) && capturable_decl(
                all_decl@,
                m,
            )) by {
            if ids.take(i + 1).contains(m) && m != name@ {
                let j = choose|j: int| 0 <= j < i + 1 && #[trigger] ids.take(i + 1)[j] == m;
                assert(ids.take(i as int)[j] == m);
            }
            if ids.take(i as int).contains(m) {
                let j = choose|j: int| 0 <= j < i && #[trigger] ids.take(i as int)[j] == m;
                assert(ids.take(i + 1)[j] == m);
            }
            if m == name@ {
                assert(ids.take(i + 1)[i as int] == m);
            }
        }
        i += 1;
    }
    assert(ids.take(all_idents@.len() as int) =~= ids);
    r
}

} // verus!
