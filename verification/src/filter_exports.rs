//! Which top-level statements the `strip_exports`, `strip_ctx_name` and
//! `strip_event_handlers` options rewrite: stripped exports get a throwing
//! stub in place of their body, stripped `$` call statements become `void 0`.

use vstd::prelude::*;

use crate::code_move::views;
use crate::jsx_events::{is_event_handler_name, is_event_handler_name_spec};
use crate::text::contains_str;

verus! {

/// The message of the `throw` in a stripped export's stub.
pub const STRIP_MESSAGE: &'static str =
    "Symbol removed by Qwik Optimizer, it can not be called from current platform";

/// What the stripping passes read of a top-level statement.
#[derive(Debug, Clone)]
pub enum TopLevelStmt {
    /// `export const|let|var ...`: the number of declarators, the name of the
    /// first one when it binds a plain identifier, and whether it has an initializer.
    ExportVars { declarators: usize, name: Option<String>, has_init: bool },
    /// `export function name(...) {...}`.
    ExportFunction { name: Option<String> },
    /// An expression statement holding a call; the callee's name when it is
    /// a plain identifier.
    CallStatement { callee: Option<String> },
    /// Any other statement.
    Other,
}

/// The rewrite a stripping pass applies to a statement.
#[derive(Debug, Clone, Copy, PartialEq, Eq, Structural)]
pub enum StripAction {
    /// Leave the statement as it is.
    Keep,
    /// Replace the initializer with `() => { throw STRIP_MESSAGE }`.
    StubInitializer,
    /// Replace `export function name` by `export const name = () => { throw STRIP_MESSAGE }`.
    FunctionToConstStub,
    /// Replace the call expression with `void 0`.
    VoidStatement,
}

/// What `filter_exports` does to a statement, given the names to strip.
pub open spec fn export_action(stmt: TopLevelStmt, strip: Seq<Seq<char>>) -> StripAction {
    if strip.len() == 0 {
        StripAction::Keep
    } else {
        match stmt {
            TopLevelStmt::ExportVars { declarators, name, has_init } => match name {
                Some(n) => if declarators == 1 && strip.contains(n@) && has_init {
                    StripAction::StubInitializer
                } else {
                    StripAction::Keep
                },
                None => StripAction::Keep,
            },
            TopLevelStmt::ExportFunction { name } => match name {
                Some(n) => if strip.contains(n@) {
                    StripAction::FunctionToConstStub
                } else {
                    StripAction::Keep
                },
                None => StripAction::Keep,
            },
            _ => StripAction::Keep,
        }
    }
}

/// A call statement is stripped when its callee is a named context or, with
/// `strip_event_handlers`, an event handler marker.
pub open spec fn strips_call(callee: Seq<char>, strip_ctx: Seq<Seq<char>>, strip_events: bool) -> bool {
    strip_ctx.contains(callee) || (strip_events && is_event_handler_name_spec(callee))
}

/// What `filter_ctx_names` does to a statement.
pub open spec fn ctx_action(stmt: TopLevelStmt, strip_ctx: Seq<Seq<char>>, strip_events: bool) -> StripAction {
    match stmt {
        TopLevelStmt::CallStatement { callee } => match callee {
            Some(c) => if strips_call(c@, strip_ctx, strip_events) {
                StripAction::VoidStatement
            } else {
                StripAction::Keep
            },
            None => StripAction::Keep,
        },
        _ => StripAction::Keep,
    }
}

fn export_action_of(stmt: &TopLevelStmt, strip_exports: &Vec<String>) -> (r: StripAction)
    ensures
        r == export_action(*stmt, views(strip_exports@)),
{
    if strip_exports.len() == 0 {
        return StripAction::Keep;
    }
    match stmt {
        TopLevelStmt::ExportVars { declarators, name, has_init } => match name {
            Some(n) => {
                if *declarators == 1 && contains_str(strip_exports, n.as_str()) && *has_init {
                    StripAction::StubInitializer
                } else {
                    StripAction::Keep
                }
            },
            None => StripAction::Keep,
        },
        TopLevelStmt::ExportFunction { name } => match name {
            Some(n) => {
                if contains_str(strip_exports, n.as_str()) {
                    StripAction::FunctionToConstStub
                } else {
                    StripAction::Keep
                }
            },
            None => StripAction::Keep,
        },
        _ => StripAction::Keep,
    }
}

/// The rewrite of each statement under `strip_exports`: exports named in the
/// list keep their binding but lose their body (single-declarator variable
/// exports with an initializer, and function exports); all else stays.
pub fn filter_exports(stmts: &Vec<TopLevelStmt>, strip_exports: &Vec<String>) -> (r: Vec<StripAction>)
    ensures
        r@.len() == stmts@.len(),
        forall|k: int| 0 <= k < r@.len() ==> #[trigger] r@[k] == export_action(stmts@[k], views(strip_exports@)),
{
    let mut r: Vec<StripAction> = Vec::new();
    let mut k: usize = 0;
    while k < stmts.len()
        invariant
            k <= stmts@.len(),
            r@.len() == k,
            forall|q: int| 0 <= q < k ==> #[trigger] r@[q] == export_action(stmts@[q], views(strip_exports@)),
        decreases stmts@.len() - k,
    {
        r.push(export_action_of(&stmts[k], strip_exports));
        k += 1;
    }
    r
}

/// Whether a call statement with this callee is stripped.
pub fn should_strip_call(callee: &str, strip_ctx_name: &Vec<String>, strip_event_handlers: bool) -> (r: bool)
    ensures
        r == strips_call(callee@, views(strip_ctx_name@), strip_event_handlers),
{
    contains_str(strip_ctx_name, callee) || (strip_event_handlers && is_event_handler_name(callee))
}

/// The rewrite of each statement under `strip_ctx_name` and
/// `strip_event_handlers`: call statements of a stripped context become `void 0`.
pub fn filter_ctx_names(stmts: &Vec<TopLevelStmt>, strip_ctx_name: &Vec<String>, strip_event_handlers: bool) -> (r:
    Vec<StripAction>)
    ensures
        r@.len() == stmts@.len(),
        forall|k: int|
            0 <= k < r@.len() ==> #[trigger] r@[k] == ctx_action(stmts@[k], views(strip_ctx_name@), strip_event_handlers),
{
    let mut r: Vec<StripAction> = Vec::new();
    let mut k: usize = 0;
    while k < stmts.len()
        invariant
            k <= stmts@.len(),
            r@.len() == k,
            forall|q: int|
                0 <= q < k ==> #[trigger] r@[q] == ctx_action(stmts@[q], views(strip_ctx_name@), strip_event_handlers),
        decreases stmts@.len() - k,
    {
        let a = if strip_ctx_name.len() == 0 && !strip_event_handlers {
            proof {
                match stmts@[k as int] {
                    TopLevelStmt::CallStatement { callee } => match callee {
                        Some(c) => {
                            assert(!views(strip_ctx_name@).contains(c@));
                        },
                        None => {},
                    },
                    _ => {},
                }
            }
            StripAction::Keep
        } else {
            match &stmts[k] {
                TopLevelStmt::CallStatement { callee } => match callee {
                    Some(c) => {
                        if should_strip_call(c.as_str(), strip_ctx_name, strip_event_handlers) {
                            StripAction::VoidStatement
                        } else {
                            StripAction::Keep
                        }
                    },
                    None => StripAction::Keep,
                },
                _ => StripAction::Keep,
            }
        };
        r.push(a);
        k += 1;
    }
    r
}

/// Law: with nothing to strip, both passes keep every statement.
pub proof fn lemma_nothing_to_strip_keeps_all(stmt: TopLevelStmt)
    ensures
        export_action(stmt, Seq::empty()) == StripAction::Keep,
        ctx_action(stmt, Seq::empty(), false) == StripAction::Keep,
{
}

} // verus!
