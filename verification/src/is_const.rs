//! Whether a JSX prop value is a compile-time constant, which decides whether
//! the prop goes into the const props or the var props of a JSX call.
//!
//! The expression is given as `JsExpr`: the shape of a parsed expression as far
//! as constness depends on it.

use vstd::prelude::*;

verus! {

/// A property of an object literal.
#[derive(Debug)]
pub enum ObjectProp {
    /// A `key: value` property (shorthand and method properties included),
    /// with its value.
    Property(JsExpr),
    /// A `...spread` property.
    Spread,
}

/// An element of an array literal.
#[derive(Debug, Clone, Copy, PartialEq, Eq, Structural)]
pub enum ArrayElem {
    /// A `...spread` element.
    Spread,
    /// A hole, as in `[1, , 2]`.
    Elision,
    /// A string, numeric, boolean, null, bigint or regular expression literal.
    Literal,
    /// Any other expression.
    Other,
}

/// An expression, by the parts that decide whether it is constant.
#[derive(Debug)]
pub enum JsExpr {
    StringLiteral,
    NumericLiteral,
    BooleanLiteral,
    NullLiteral,
    BigIntLiteral,
    RegExpLiteral,
    /// A template literal, with its embedded expressions.
    Template(Vec<JsExpr>),
    /// A unary expression; `is_typeof` for the `typeof` operator.
    Unary { is_typeof: bool, argument: Box<JsExpr> },
    /// `test ? consequent : alternate`
    Conditional { test: Box<JsExpr>, consequent: Box<JsExpr>, alternate: Box<JsExpr> },
    /// A binary expression.
    Binary { left: Box<JsExpr>, right: Box<JsExpr> },
    /// An object literal.
    Object(Vec<ObjectProp>),
    /// An array literal.
    Array(Vec<ArrayElem>),
    /// `(inner)`
    Parenthesized(Box<JsExpr>),
    /// Any other expression: identifiers, member expressions, calls,
    /// functions, and so on.
    Other,
}

/// An array element that keeps an array literal constant.
pub open spec fn const_elem(e: ArrayElem) -> bool {
    e is Elision || e is Literal
}

/// The expression is a compile-time constant: a literal; a template literal,
/// unary (always for `typeof`), conditional, binary or parenthesized
/// expression whose parts are constant; an object literal without spread
/// whose property values are constant; an array literal of literals and holes.
pub open spec fn const_expr(e: JsExpr) -> bool
    decreases e,
{
    match e {
        JsExpr::StringLiteral => true,
        JsExpr::NumericLiteral => true,
        JsExpr::BooleanLiteral => true,
        JsExpr::NullLiteral => true,
        JsExpr::BigIntLiteral => true,
        JsExpr::RegExpLiteral => true,
        JsExpr::Template(parts) => all_const(parts@),
        JsExpr::Unary { is_typeof, argument } => is_typeof || const_expr(*argument),
        JsExpr::Conditional { test, consequent, alternate } => const_expr(*test) && const_expr(
            *consequent,
        ) && const_expr(*alternate),
        JsExpr::Binary { left, right } => const_expr(*left) && const_expr(*right),
        JsExpr::Object(props) => props_const(props@),
        JsExpr::Array(elems) => forall|i: int|
            0 <= i < elems@.len() ==> const_elem(#[trigger] elems@[i]),
        JsExpr::Parenthesized(inner) => const_expr(*inner),
        JsExpr::Other => false,
    }
}

/// Every expression of `s` is constant.
pub open spec fn all_const(s: Seq<JsExpr>) -> bool
    decreases s,
{
    if s.len() == 0 {
        true
    } else {
        all_const(s.drop_last()) && const_expr(s.last())
    }
}

/// No property of `s` is a spread, and every property value is constant.
pub open spec fn props_const(s: Seq<ObjectProp>) -> bool
    decreases s,
{
    if s.len() == 0 {
        true
    } else {
        props_const(s.drop_last()) && match s.last() {
            ObjectProp::Property(v) => const_expr(v),
            ObjectProp::Spread => false,
        }
    }
}

/// Whether a JSX prop value is a compile-time constant (see `const_expr`).
#[verifier::loop_isolation(false)]
pub fn is_const_expression(expr: &JsExpr) -> (r: bool)
    ensures
        r == const_expr(*expr),
    decreases expr,
{
    match expr {
        JsExpr::StringLiteral => true,
        JsExpr::NumericLiteral => true,
        JsExpr::BooleanLiteral => true,
        JsExpr::NullLiteral => true,
        JsExpr::BigIntLiteral => true,
        JsExpr::RegExpLiteral => true,
        JsExpr::Template(parts) => {
            let mut i: usize = 0;
            while i < parts.len()
                invariant
                    i <= parts@.len(),
                    *expr == JsExpr::Template(*parts),
                    all_const(parts@.take(i as int)),
                decreases parts@.len() - i,
            {
                proof {
                    assert(decreases_to!(*expr => parts@[i as int]));
                }
                let c = is_const_expression(&parts[i]);
                proof {
                    assert(parts@.take(i + 1).drop_last() =~= parts@.take(i as int));
                }
                if !c {
                    proof {
                        lemma_all_const_prefix(parts@, i as int + 1);
                    }
                    return false;
                }
                i += 1;
            }
            proof {
                assert(parts@.take(parts@.len() as int) =~= parts@);
            }
            true
        },
        JsExpr::Unary { is_typeof, argument } => *is_typeof || is_const_expression(argument),
        JsExpr::Conditional { test, consequent, alternate } => is_const_expression(test)
            && is_const_expression(consequent) && is_const_expression(alternate),
        JsExpr::Binary { left, right } => is_const_expression(left) && is_const_expression(right),
        JsExpr::Object(props) => {
            let mut i: usize = 0;
            while i < props.len()
                invariant
                    i <= props@.len(),
                    *expr == JsExpr::Object(*props),
                    props_const(props@.take(i as int)),
                decreases props@.len() - i,
            {
                proof {
                    assert(props@.take(i + 1).drop_last() =~= props@.take(i as int));
                }
                match &props[i] {
                    ObjectProp::Property(v) => {
                        proof {
                            assert(decreases_to!(*expr => props@[i as int]));
                            assert(decreases_to!(props@[i as int] => *v));
                        }
                        if !is_const_expression(v) {
                            proof {
                                lemma_props_const_prefix(props@, i as int + 1);
                            }
                            return false;
                        }
                    },
                    ObjectProp::Spread => {
                        proof {
                            lemma_props_const_prefix(props@, i as int + 1);
                        }
                        return false;
                    },
                }
                i += 1;
            }
            proof {
                assert(props@.take(props@.len() as int) =~= props@);
            }
            true
        },
        JsExpr::Array(elems) => {
            let mut i: usize = 0;
            while i < elems.len()
                invariant
                    i <= elems@.len(),
                    *expr == JsExpr::Array(*elems),
                    forall|k: int| 0 <= k < i ==> const_elem(#[trigger] elems@[k]),
                decreases elems@.len() - i,
            {
                match elems[i] {
                    ArrayElem::Elision | ArrayElem::Literal => {},
                    ArrayElem::Spread | ArrayElem::Other => {
                        assert(!const_elem(elems@[i as int]));
                        return false;
                    },
                }
                i += 1;
            }
            true
        },
        JsExpr::Parenthesized(inner) => is_const_expression(inner),
        JsExpr::Other => false,
    }
}

/// A sequence whose prefix fails `all_const` fails it too.
/// Law: a binary expression is a compile-time constant only when both of its
/// operands are, so a binary expression that reads an identifier (or any other
/// non-constant operand, on either side) is never constant; the order of the
/// operands does not matter.
pub proof fn lemma_binary_const_needs_both_operands(left: JsExpr, right: JsExpr)
    ensures
        !const_expr(JsExpr::Other),
        const_expr(JsExpr::Binary { left: Box::new(left), right: Box::new(right) }) ==> const_expr(left),
        const_expr(JsExpr::Binary { left: Box::new(left), right: Box::new(right) }) ==> const_expr(right),
        !const_expr(left) ==> !const_expr(JsExpr::Binary { left: Box::new(left), right: Box::new(right) }),
        const_expr(JsExpr::Binary { left: Box::new(left), right: Box::new(right) }) == const_expr(
            JsExpr::Binary { left: Box::new(right), right: Box::new(left) },
        ),
        const_expr(left) && const_expr(right) ==> const_expr(
            JsExpr::Binary { left: Box::new(left), right: Box::new(right) },
        ),
{
}

proof fn lemma_all_const_prefix(s: Seq<JsExpr>, k: int)
    requires
        0 <= k <= s.len(),
        !all_const(s.take(k)),
    ensures
        !all_const(s),
    decreases s.len() - k,
{
    if k < s.len() {
        assert(s.take(k + 1).drop_last() =~= s.take(k));
        lemma_all_const_prefix(s, k + 1);
    } else {
        assert(s.take(k) =~= s);
    }
}

/// A sequence whose prefix fails `props_const` fails it too.
proof fn lemma_props_const_prefix(s: Seq<ObjectProp>, k: int)
    requires
        0 <= k <= s.len(),
        !props_const(s.take(k)),
    ensures
        !props_const(s),
    decreases s.len() - k,
{
    if k < s.len() {
        assert(s.take(k + 1).drop_last() =~= s.take(k));
        lemma_props_const_prefix(s, k + 1);
    } else {
        assert(s.take(k) =~= s);
    }
}

} // verus!
