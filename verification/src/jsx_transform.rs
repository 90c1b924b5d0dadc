//! Decisions of the JSX lowering: element tags, attribute keys, generated
//! keys, and the split of attributes into const and var props.

use vstd::prelude::*;

use crate::is_const::{const_expr, is_const_expression, JsExpr};
use crate::text::{chars_of, decimal, decimal_string, str_eq};

verus! {

/// The name of a JSX element as written.
#[derive(Debug, Clone)]
pub enum JsxTagName {
    /// A plain name such as `div` or `Header`.
    Identifier(String),
    /// A name that refers to a binding in scope.
    IdentifierReference(String),
    /// A member chain such as `Foo.Bar`.
    MemberExpression,
    /// A namespaced name `ns:name`.
    NamespacedName(String, String),
    /// `this`.
    ThisExpression,
}

/// What a tag becomes in the `_jsx*` call.
#[derive(Debug, Clone, PartialEq, Eq)]
pub enum TagExpr {
    /// A reference to the named binding (a component).
    Identifier(String),
    /// A string literal (an intrinsic element).
    StringLiteral(String),
    /// The member chain itself.
    Member,
    /// `this`.
    This,
}

/// A name starting with an ASCII capital is a component; the empty name is not.
pub open spec fn is_component_name(s: Seq<char>) -> bool {
    s.len() > 0 && 'A' <= s[0] && s[0] <= 'Z'
}

/// Whether a tag is a function component (rather than an intrinsic element).
pub open spec fn is_function_tag(name: JsxTagName) -> bool {
    match name {
        JsxTagName::Identifier(s) => is_component_name(s@),
        JsxTagName::NamespacedName(_, _) => false,
        _ => true,
    }
}

/// `ns:name`.
pub open spec fn namespaced(ns: Seq<char>, name: Seq<char>) -> Seq<char> {
    ns + seq![':'] + name
}

/// Classify a JSX tag: capitalised plain names, references, member chains and
/// `this` are components; other plain names and namespaced names are
/// intrinsic elements, written as string literals (`ns:name` for namespaced).
pub fn classify_tag(name: &JsxTagName) -> (r: (bool, TagExpr))
    ensures
        r.0 == is_function_tag(*name),
        match (*name, r.1) {
            (JsxTagName::Identifier(s), TagExpr::Identifier(t)) => is_component_name(s@) && t@ == s@,
            (JsxTagName::Identifier(s), TagExpr::StringLiteral(t)) => !is_component_name(s@) && t@ == s@,
            (JsxTagName::IdentifierReference(s), TagExpr::Identifier(t)) => t@ == s@,
            (JsxTagName::MemberExpression, TagExpr::Member) => true,
            (JsxTagName::NamespacedName(ns, n), TagExpr::StringLiteral(t)) => t@ == namespaced(ns@, n@),
            (JsxTagName::ThisExpression, TagExpr::This) => true,
            _ => false,
        },
{
    match name {
        JsxTagName::Identifier(s) => {
            let v = chars_of(s.as_str());
            let is_fn = v.len() > 0 && 'A' <= v[0] && v[0] <= 'Z';
            if is_fn {
                (true, TagExpr::Identifier(String::from_str(s.as_str())))
            } else {
                (false, TagExpr::StringLiteral(String::from_str(s.as_str())))
            }
        },
        JsxTagName::IdentifierReference(s) => (true, TagExpr::Identifier(String::from_str(s.as_str()))),
        JsxTagName::MemberExpression => (true, TagExpr::Member),
        JsxTagName::NamespacedName(ns, n) => {
            (false, TagExpr::StringLiteral(jsx_attr_key(Some(ns.as_str()), n.as_str())))
        },
        JsxTagName::ThisExpression => (true, TagExpr::This),
    }
}

/// The key of a JSX attribute: its name, or `ns:name` for a namespaced one.
pub fn jsx_attr_key(ns: Option<&str>, name: &str) -> (r: String)
    ensures
        r@ == (match ns {
            Some(n) => namespaced(n@, name@),
            None => name@,
        }),
{
    match ns {
        Some(n) => {
            let mut r = String::from_str(n);
            crate::text::push_char(&mut r, ':');
            r.append(name);
            assert(r@ =~= namespaced(n@, name@));
            r
        },
        None => String::from_str(name),
    }
}

/// The next generated JSX key: the counter in decimal, after which the
/// counter moves on by one.
pub fn gen_jsx_key(counter: &mut u32) -> (key: String)
    requires
        *old(counter) < u32::MAX,
    ensures
        key@ == decimal(*old(counter) as nat),
        *final(counter) == *old(counter) + 1,
{
    let key = decimal_string(*counter as u64);
    *counter = *counter + 1;
    key
}


// ---------------------------------------------------------------------------
// Prop classification
// ---------------------------------------------------------------------------

/// The value of a JSX attribute, as prop classification reads it.
#[derive(Debug)]
pub enum JsxAttrValue {
    /// No value, as in `<input disabled />`.
    Absent,
    /// An empty expression container, `attr={}`.
    Empty,
    /// A value: a string, an expression, an element or a fragment.
    Expr(JsExpr),
}

/// A JSX attribute, as prop classification reads it.
#[derive(Debug)]
pub enum JsxAttr {
    /// `{...spread}`
    Spread,
    /// An attribute with its key (`ns:name` for a namespaced name) and value.
    Attribute { key: String, value: JsxAttrValue },
}

/// An entry of the props object of a JSX call.
#[derive(Debug, Clone, PartialEq, Eq)]
pub enum PropEntry {
    /// The spread of attribute `attr`.
    Spread(usize),
    /// Property `key` (a string literal key when `quoted`) with the value of
    /// attribute `attr`, or `true` when `value_is_true` (the attribute has no
    /// value, or an empty one).
    Prop { key: String, quoted: bool, attr: usize, value_is_true: bool },
}

/// The attributes of a JSX element split for the `_jsx*` call.
#[derive(Debug, Clone, PartialEq, Eq)]
pub struct PropSplit {
    /// Some attribute is a spread.
    pub has_spread: bool,
    /// The dynamic props, spreads included, in attribute order.
    pub var_props: Vec<PropEntry>,
    /// The constant props, in attribute order.
    pub const_props: Vec<PropEntry>,
    /// The attribute whose value is the element's key.
    pub key: Option<usize>,
    /// The attribute whose value is the element's children.
    pub children: Option<usize>,
}

/// An entry of a props object, in mathematical form.
pub enum PropEntrySpec {
    Spread(usize),
    Prop { key: Seq<char>, quoted: bool, attr: usize, value_is_true: bool },
}

impl View for PropEntry {
    type V = PropEntrySpec;

    open spec fn view(&self) -> PropEntrySpec {
        match self {
            PropEntry::Spread(a) => PropEntrySpec::Spread(*a),
            PropEntry::Prop { key, quoted, attr, value_is_true } => PropEntrySpec::Prop {
                key: key@,
                quoted: *quoted,
                attr: *attr,
                value_is_true: *value_is_true,
            },
        }
    }
}

/// The views of a list of props entries.
pub open spec fn entry_views(v: Seq<PropEntry>) -> Seq<PropEntrySpec> {
    v.map_values(|e: PropEntry| e@)
}

/// The key of a prop for an attribute key: `className` becomes `class`.
pub open spec fn normalized_key(key: Seq<char>) -> Seq<char> {
    if key == "className"@ {
        "class"@
    } else {
        key
    }
}

/// A prop key that must be written as a string literal: it holds `:` or `-`.
pub open spec fn needs_quotes(key: Seq<char>) -> bool {
    key.contains(':') || key.contains('-')
}

/// The value of an attribute is constant; no value, or an empty one, stands
/// for `true`.
pub open spec fn attr_value_const(v: JsxAttrValue) -> bool {
    match v {
        JsxAttrValue::Expr(e) => const_expr(e),
        _ => true,
    }
}

/// The props entry of attribute `i`, a plain attribute.
pub open spec fn prop_entry_of(key: Seq<char>, value: JsxAttrValue, i: int) -> PropEntrySpec {
    PropEntrySpec::Prop {
        key: normalized_key(key),
        quoted: needs_quotes(normalized_key(key)),
        attr: i as usize,
        value_is_true: !(value is Expr),
    }
}

/// The attribute is neither `key` nor `children`.
pub open spec fn plain_attr(key: Seq<char>) -> bool {
    key != "key"@ && key != "children"@
}

/// The dynamic props of the first `k` attributes (`want_const` false), or the
/// constant ones (`want_const` true).
pub open spec fn props_upto(attrs: Seq<JsxAttr>, k: int, want_const: bool) -> Seq<PropEntrySpec>
    decreases k,
{
    if k <= 0 {
        Seq::empty()
    } else {
        let prev = props_upto(attrs, k - 1, want_const);
        match attrs[k - 1] {
            JsxAttr::Spread => if want_const {
                prev
            } else {
                prev.push(PropEntrySpec::Spread((k - 1) as usize))
            },
            JsxAttr::Attribute { key, value } => if plain_attr(key@) && attr_value_const(value)
                == want_const {
                prev.push(prop_entry_of(key@, value, k - 1))
            } else {
                prev
            },
        }
    }
}

/// The attribute among the first `k` whose value is the `name` prop (`key` or
/// `children`): the last one with a value; an empty value clears it.
pub open spec fn special_upto(attrs: Seq<JsxAttr>, k: int, name: Seq<char>) -> Option<usize>
    decreases k,
{
    if k <= 0 {
        None
    } else {
        let prev = special_upto(attrs, k - 1, name);
        match attrs[k - 1] {
            JsxAttr::Attribute { key, value } => if key@ == name {
                match value {
                    JsxAttrValue::Absent => prev,
                    JsxAttrValue::Empty => None,
                    JsxAttrValue::Expr(_) => Some((k - 1) as usize),
                }
            } else {
                prev
            },
            JsxAttr::Spread => prev,
        }
    }
}

/// Some attribute among the first `k` is a spread.
pub open spec fn spread_upto(attrs: Seq<JsxAttr>, k: int) -> bool
    decreases k,
{
    if k <= 0 {
        false
    } else {
        spread_upto(attrs, k - 1) || attrs[k - 1] is Spread
    }
}

fn holds_char(v: &Vec<char>, c: char) -> (r: bool)
    ensures
        r == v@.contains(c),
{
    let mut i: usize = 0;
    while i < v.len()
        invariant
            i <= v@.len(),
            forall|k: int| 0 <= k < i ==> v@[k] != c,
        decreases v@.len() - i,
    {
        if v[i] == c {
            return true;
        }
        i += 1;
    }
    false
}

/// Split the attributes of a JSX element into the props of its `_jsx*` call:
/// spreads and dynamic values go to the var props, constant values (and
/// attributes without value, which stand for `true`) to the const props, each
/// in attribute order; `key` and `children` are taken out; `className` becomes
/// `class`.
pub fn classify_props(attrs: &Vec<JsxAttr>) -> (r: PropSplit)
    ensures
        r.has_spread == spread_upto(attrs@, attrs@.len() as int),
        entry_views(r.var_props@) == props_upto(attrs@, attrs@.len() as int, false),
        entry_views(r.const_props@) == props_upto(attrs@, attrs@.len() as int, true),
        r.key == special_upto(attrs@, attrs@.len() as int, "key"@),
        r.children == special_upto(attrs@, attrs@.len() as int, "children"@),
{
    let mut split = PropSplit {
        has_spread: false,
        var_props: Vec::new(),
        const_props: Vec::new(),
        key: None,
        children: None,
    };
    let mut i: usize = 0;
    while i < attrs.len()
        invariant
            i <= attrs@.len(),
            split.has_spread == spread_upto(attrs@, i as int),
            entry_views(split.var_props@) == props_upto(attrs@, i as int, false),
            entry_views(split.const_props@) == props_upto(attrs@, i as int, true),
            split.key == special_upto(attrs@, i as int, "key"@),
            split.children == special_upto(attrs@, i as int, "children"@),
        decreases attrs@.len() - i,
    {
        let ghost var_before = split.var_props@;
        let ghost const_before = split.const_props@;
        match &attrs[i] {
            JsxAttr::Spread => {
                split.has_spread = true;
                split.var_props.push(PropEntry::Spread(i));
                proof {
                    assert(entry_views(split.var_props@) =~= entry_views(var_before).push(
                        PropEntrySpec::Spread(i),
                    ));
                }
            },
            JsxAttr::Attribute { key, value } => {
                let is_key = str_eq(key.as_str(), "key");
                let is_children = str_eq(key.as_str(), "children");
                if is_key || is_children {
                    let found: Option<usize> = match value {
                        JsxAttrValue::Absent => if is_key {
                            split.key
                        } else {
                            split.children
                        },
                        JsxAttrValue::Empty => None,
                        JsxAttrValue::Expr(_) => Some(i),
                    };
                    if is_key {
                        split.key = found;
                    } else {
                        split.children = found;
                    }
                    proof {
                        reveal_strlit("key");
                        reveal_strlit("children");
                        assert("key"@ != "children"@) by {
                            assert("key"@.len() != "children"@.len());
                        }
                        if is_key {
                            assert(split.children == special_upto(attrs@, i + 1, "children"@));
                        } else {
                            assert(split.key == special_upto(attrs@, i + 1, "key"@));
                            assert(split.children == special_upto(attrs@, i + 1, "children"@));
                        }
                    }
                } else {
                    let normalized = if str_eq(key.as_str(), "className") {
                        String::from_str("class")
                    } else {
                        String::from_str(key.as_str())
                    };
                    let nv = chars_of(normalized.as_str());
                    let quoted = holds_char(&nv, ':') || holds_char(&nv, '-');
                    let (is_const, value_is_true) = match value {
                        JsxAttrValue::Expr(e) => (is_const_expression(e), false),
                        _ => (true, true),
                    };
                    let entry = PropEntry::Prop { key: normalized, quoted, attr: i, value_is_true };
                    let ghost ev = entry@;
                    proof {
                        assert(ev == prop_entry_of(key@, *value, i as int));
                    }
                    if is_const {
                        split.const_props.push(entry);
                        proof {
                            assert(entry_views(split.const_props@) =~= entry_views(const_before).push(ev));
                        }
                    } else {
                        split.var_props.push(entry);
                        proof {
                            assert(entry_views(split.var_props@) =~= entry_views(var_before).push(ev));
                        }
                    }
                }
            },
        }
        i += 1;
    }
    split
}


/// The attribute an entry of a props object comes from.
pub open spec fn entry_attr(e: PropEntrySpec) -> int {
    match e {
        PropEntrySpec::Spread(a) => a as int,
        PropEntrySpec::Prop { attr, .. } => attr as int,
    }
}

/// Some entry comes from attribute `i`.
pub open spec fn refers_to(entries: Seq<PropEntrySpec>, i: int) -> bool {
    exists|j: int| 0 <= j < entries.len() && entry_attr(#[trigger] entries[j]) == i
}

/// Attribute `i` is `key` or `children`.
pub open spec fn special_attr(attrs: Seq<JsxAttr>, i: int) -> bool {
    attrs[i] matches JsxAttr::Attribute { key, .. } && !plain_attr(key@)
}

/// Law: the var and const props partition the attributes other than `key`
/// and `children`: each such attribute gives exactly one entry, in one of the
/// two lists, and `key` and `children` give none.
pub proof fn lemma_props_partition(attrs: Seq<JsxAttr>, i: int)
    requires
        attrs.len() <= usize::MAX,
        0 <= i < attrs.len(),
    ensures
        refers_to(props_upto(attrs, attrs.len() as int, false), i) || refers_to(
            props_upto(attrs, attrs.len() as int, true),
            i,
        ) <==> !special_attr(attrs, i),
        !(refers_to(props_upto(attrs, attrs.len() as int, false), i) && refers_to(
            props_upto(attrs, attrs.len() as int, true),
            i,
        )),
{
    lemma_props_refer(attrs, attrs.len() as int, false, i);
    lemma_props_refer(attrs, attrs.len() as int, true, i);
}

/// Entry lists up to `k` refer to attribute `i` exactly when `i < k` and it
/// belongs to that list.
proof fn lemma_props_refer(attrs: Seq<JsxAttr>, k: int, want_const: bool, i: int)
    requires
        attrs.len() <= usize::MAX,
        0 <= k <= attrs.len(),
        0 <= i < attrs.len(),
    ensures
        refers_to(props_upto(attrs, k, want_const), i) <==> (i < k && match attrs[i] {
            JsxAttr::Spread => !want_const,
            JsxAttr::Attribute { key, value } => plain_attr(key@) && attr_value_const(value)
                == want_const,
        }),
    decreases k,
{
    if k > 0 {
        lemma_props_refer(attrs, k - 1, want_const, i);
        let prev = props_upto(attrs, k - 1, want_const);
        let cur = props_upto(attrs, k, want_const);
        if cur.len() > prev.len() {
            assert(cur == prev.push(cur.last()));
            assert(entry_attr(cur.last()) == k - 1);
            if refers_to(prev, i) {
                let j = choose|j: int| 0 <= j < prev.len() && entry_attr(#[trigger] prev[j]) == i;
                assert(cur[j] == prev[j]);
            }
            if refers_to(cur, i) && i != k - 1 {
                let j = choose|j: int| 0 <= j < cur.len() && entry_attr(#[trigger] cur[j]) == i;
                assert(j < prev.len());
                assert(prev[j] == cur[j]);
            }
            if i == k - 1 {
                assert(entry_attr(cur[cur.len() - 1]) == i);
            }
        } else {
            assert(cur == prev);
        }
    }
}

} // verus!
