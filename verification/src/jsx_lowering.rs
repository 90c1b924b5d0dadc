//! The `_jsxSorted` / `_jsxSplit` call a JSX element is lowered to, as text:
//! the tag, the var and const props objects, the children, the flags and the
//! key.

use vstd::prelude::*;

use crate::code_move::views;
use crate::inlined_fn::join_comma;
use crate::jsx_transform::{
    classify_props, entry_views, gen_jsx_key, props_upto, special_upto, JsxAttr, PropEntry, PropEntrySpec, TagExpr,
};
use crate::segment_rules::{comma_join, ImportNeeds};
use crate::text::decimal;

verus! {

/// The text of a props entry: `...value` for a spread, else `key: value`
/// (the key quoted when it must be, `true` for an attribute without value).
pub open spec fn entry_text(e: PropEntrySpec, values: Seq<Seq<char>>) -> Seq<char> {
    match e {
        PropEntrySpec::Spread(a) => "..."@ + values[a as int],
        PropEntrySpec::Prop { key, quoted, attr, value_is_true } => (if quoted {
            "\""@ + key + "\""@
        } else {
            key
        }) + ": "@ + (if value_is_true {
            "true"@
        } else {
            values[attr as int]
        }),
    }
}

/// A props object: `null` when it has no entry, else `{ e1, e2, ... }`.
pub open spec fn props_text(es: Seq<PropEntrySpec>, values: Seq<Seq<char>>) -> Seq<char> {
    if es.len() == 0 {
        "null"@
    } else {
        "{ "@ + join_comma(es.map_values(|e: PropEntrySpec| entry_text(e, values))) + " }"@
    }
}

/// The children argument: `null`, the only child, or an array of them.
pub open spec fn children_text(children: Seq<Seq<char>>) -> Seq<char> {
    if children.len() == 0 {
        "null"@
    } else if children.len() == 1 {
        children[0]
    } else {
        "["@ + join_comma(children) + "]"@
    }
}

/// The tag argument: a component's name, an element's name quoted, or the
/// member chain or `this` as written (`source`).
pub open spec fn tag_text(tag: TagExpr, source: Seq<char>) -> Seq<char> {
    match tag {
        TagExpr::Identifier(t) => t@,
        TagExpr::StringLiteral(t) => "\""@ + t@ + "\""@,
        _ => source,
    }
}

/// The call a JSX element is lowered to, for attributes `attrs` whose values
/// read `values`, the children `children`, the tag `tag`, and the key `key`:
/// `_jsxSplit` when an attribute is a spread, else `_jsxSorted`; the var
/// props, the const props, the children (those written, then a `children`
/// attribute's value), the flags `1`, and the key.
pub open spec fn jsx_call_spec(
    attrs: Seq<JsxAttr>,
    values: Seq<Seq<char>>,
    children: Seq<Seq<char>>,
    tag: Seq<char>,
    key: Seq<char>,
    has_spread: bool,
) -> Seq<char> {
    let n = attrs.len() as int;
    let all_children = match special_upto(attrs, n, "children"@) {
        Some(c) => children.push(values[c as int]),
        None => children,
    };
    (if has_spread {
        "_jsxSplit"@
    } else {
        "_jsxSorted"@
    }) + "("@ + tag + ", "@ + props_text(props_upto(attrs, n, false), values) + ", "@ + props_text(
        props_upto(attrs, n, true),
        values,
    ) + ", "@ + children_text(all_children) + ", 1, "@ + key + ")"@
}

/// The props entries of the first `k` attributes name attributes among them.
proof fn lemma_props_in_range(attrs: Seq<JsxAttr>, k: int, want_const: bool)
    requires
        0 <= k <= attrs.len(),
    ensures
        forall|i: int|
            0 <= i < props_upto(attrs, k, want_const).len() ==> match #[trigger] props_upto(
                attrs,
                k,
                want_const,
            )[i] {
                PropEntrySpec::Spread(a) => a < k,
                PropEntrySpec::Prop { attr, .. } => attr < k,
            },
    decreases k,
{
    if k > 0 {
        lemma_props_in_range(attrs, k - 1, want_const);
    }
}

/// The `key` or `children` attribute among the first `k` is one of them.
proof fn lemma_special_in_range(attrs: Seq<JsxAttr>, k: int, name: Seq<char>)
    requires
        0 <= k <= attrs.len(),
    ensures
        special_upto(attrs, k, name) matches Some(a) ==> a < k,
    decreases k,
{
    if k > 0 {
        lemma_special_in_range(attrs, k - 1, name);
    }
}

fn entry_code(e: &PropEntry, values: &Vec<String>) -> (r: String)
    requires
        match e@ {
            PropEntrySpec::Spread(a) => a < values@.len(),
            PropEntrySpec::Prop { attr, .. } => attr < values@.len(),
        },
    ensures
        r@ == entry_text(e@, views(values@)),
{
    proof {
        reveal_strlit("...");
        reveal_strlit("\"");
        reveal_strlit(": ");
        reveal_strlit("true");
    }
    match e {
        PropEntry::Spread(a) => {
            let r = crate::text::concat2("...", values[*a].as_str());
            r
        },
        PropEntry::Prop { key, quoted, attr, value_is_true } => {
            let mut r = if *quoted {
                crate::text::concat3("\"", key.as_str(), "\"")
            } else {
                crate::copy_string(key)
            };
            r.append(": ");
            if *value_is_true {
                r.append("true");
            } else {
                r.append(values[*attr].as_str());
            }
            r
        },
    }
}

fn props_code(es: &Vec<PropEntry>, values: &Vec<String>) -> (r: String)
    requires
        forall|i: int|
            0 <= i < es@.len() ==> match (#[trigger] es@[i])@ {
                PropEntrySpec::Spread(a) => a < values@.len(),
                PropEntrySpec::Prop { attr, .. } => attr < values@.len(),
            },
    ensures
        r@ == props_text(entry_views(es@), views(values@)),
{
    proof {
        reveal_strlit("null");
        reveal_strlit("{ ");
        reveal_strlit(" }");
    }
    if es.len() == 0 {
        return String::from_str("null");
    }
    let ghost target = entry_views(es@).map_values(|e: PropEntrySpec| entry_text(e, views(values@)));
    let mut parts: Vec<String> = Vec::new();
    let mut i: usize = 0;
    while i < es.len()
        invariant
            i <= es@.len(),
            target == entry_views(es@).map_values(|e: PropEntrySpec| entry_text(e, views(values@))),
            views(parts@) == target.take(i as int),
            forall|j: int|
                0 <= j < es@.len() ==> match (#[trigger] es@[j])@ {
                    PropEntrySpec::Spread(a) => a < values@.len(),
                    PropEntrySpec::Prop { attr, .. } => attr < values@.len(),
                },
        decreases es@.len() - i,
    {
        let t = entry_code(&es[i], values);
        let ghost prev = views(parts@);
        parts.push(t);
        assert(views(parts@) =~= prev.push(target[i as int]));
        assert(target.take(i + 1) =~= target.take(i as int).push(target[i as int]));
        i += 1;
    }
    assert(target.take(es@.len() as int) =~= target);
    let body = comma_join(&parts);
    crate::text::concat3("{ ", body.as_str(), " }")
}

fn children_code(children: &Vec<String>) -> (r: String)
    ensures
        r@ == children_text(views(children@)),
{
    proof {
        reveal_strlit("null");
        reveal_strlit("[");
        reveal_strlit("]");
    }
    if children.len() == 0 {
        String::from_str("null")
    } else if children.len() == 1 {
        crate::copy_string(&children[0])
    } else {
        let body = comma_join(children);
        crate::text::concat3("[", body.as_str(), "]")
    }
}

/// Lower a JSX element to its `_jsx*` call (see `jsx_call_spec`). The key is
/// the `key` attribute's value, else for a component or an element at the top
/// of a JSX tree the next generated key (quoted), else `null`; a generated key
/// moves the counter on whether or not the `key` attribute takes its place.
/// Outside any segment (`at_root`), the helper called is recorded as needed,
/// and `_fnSignal` when a prop value was wrapped in it (`signal_used`).
pub fn lower_jsx_element(
    attrs: &Vec<JsxAttr>,
    values: &Vec<String>,
    children: &Vec<String>,
    tag: &TagExpr,
    tag_source: &str,
    is_fn: bool,
    is_root: bool,
    at_root: bool,
    signal_used: bool,
    counter: &mut u32,
    needs: &mut ImportNeeds,
) -> (r: String)
    requires
        values@.len() == attrs@.len(),
        (is_fn || is_root) ==> *old(counter) < u32::MAX,
    ensures
        *final(counter) == (if is_fn || is_root { *old(counter) + 1 } else { *old(counter) as int }),
        ({
            let n = attrs@.len() as int;
            let has_spread = crate::jsx_transform::spread_upto(attrs@, n);
            let key = match special_upto(attrs@, n, "key"@) {
                Some(k) => views(values@)[k as int],
                None => if is_fn || is_root {
                    "\""@ + decimal(*old(counter) as nat) + "\""@
                } else {
                    "null"@
                },
            };
            &&& r@ == jsx_call_spec(attrs@, views(values@), views(children@), tag_text(*tag, tag_source@), key, has_spread)
            &&& final(needs).jsx_split == (old(needs).jsx_split || (at_root && has_spread))
            &&& final(needs).jsx_sorted == (old(needs).jsx_sorted || (at_root && !has_spread))
            &&& final(needs).qrl == old(needs).qrl
            &&& final(needs).inlined_qrl == old(needs).inlined_qrl
            &&& final(needs).noop_qrl == old(needs).noop_qrl
            &&& final(needs).fragment == old(needs).fragment
            &&& final(needs).fn_signal == (old(needs).fn_signal || (at_root && signal_used))
            &&& final(needs).wrap_prop == old(needs).wrap_prop
        }),
{
    proof {
        reveal_strlit("null");
        reveal_strlit("\"");
        reveal_strlit("_jsxSplit");
        reveal_strlit("_jsxSorted");
        reveal_strlit("(");
        reveal_strlit(", ");
        reveal_strlit(", 1, ");
        reveal_strlit(")");
        lemma_props_in_range(attrs@, attrs@.len() as int, false);
        lemma_props_in_range(attrs@, attrs@.len() as int, true);
        lemma_special_in_range(attrs@, attrs@.len() as int, "key"@);
        lemma_special_in_range(attrs@, attrs@.len() as int, "children"@);
    }
    let split = classify_props(attrs);
    let generated = if is_fn || is_root {
        let k = gen_jsx_key(counter);
        Some(crate::text::concat3("\"", k.as_str(), "\""))
    } else {
        None
    };
    let key = match split.key {
        Some(k) => crate::copy_string(&values[k]),
        None => match generated {
            Some(g) => g,
            None => String::from_str("null"),
        },
    };
    let tag_code = match tag {
        TagExpr::Identifier(t) => crate::copy_string(t),
        TagExpr::StringLiteral(t) => crate::text::concat3("\"", t.as_str(), "\""),
        _ => String::from_str(tag_source),
    };
    let mut all_children = crate::extraction::copy_strings(children.as_slice());
    match split.children {
        Some(c) => {
            let ghost before = views(all_children@);
            all_children.push(crate::copy_string(&values[c]));
            assert(views(all_children@) =~= before.push(views(values@)[c as int]));
        },
        None => {},
    }
    assert forall|i: int| 0 <= i < split.var_props@.len() implies match (#[trigger] split.var_props@[i])@ {
        PropEntrySpec::Spread(a) => a < values@.len(),
        PropEntrySpec::Prop { attr, .. } => attr < values@.len(),
    } by {
        assert(entry_views(split.var_props@)[i] == split.var_props@[i]@);
    }
    assert forall|i: int| 0 <= i < split.const_props@.len() implies match (#[trigger] split.const_props@[i])@ {
        PropEntrySpec::Spread(a) => a < values@.len(),
        PropEntrySpec::Prop { attr, .. } => attr < values@.len(),
    } by {
        assert(entry_views(split.const_props@)[i] == split.const_props@[i]@);
    }
    let var_code = props_code(&split.var_props, values);
    let const_code = props_code(&split.const_props, values);
    let children_c = children_code(&all_children);
    let mut r = String::from_str(if split.has_spread { "_jsxSplit" } else { "_jsxSorted" });
    r.append("(");
    r.append(tag_code.as_str());
    r.append(", ");
    r.append(var_code.as_str());
    r.append(", ");
    r.append(const_code.as_str());
    r.append(", ");
    r.append(children_c.as_str());
    r.append(", 1, ");
    r.append(key.as_str());
    r.append(")");
    if at_root {
        if split.has_spread {
            needs.jsx_split = true;
        } else {
            needs.jsx_sorted = true;
        }
        if signal_used {
            needs.fn_signal = true;
        }
    }
    r
}

/// Lower a JSX fragment to `_jsxSorted(_Fragment, null, null, children, 1,
/// key)`: the key is the next generated key (quoted) for a fragment at the
/// top of a JSX tree, else `null`. Outside any segment (`at_root`),
/// `_jsxSorted` and `Fragment` are recorded as needed.
pub fn lower_jsx_fragment(
    children: &Vec<String>,
    is_root: bool,
    at_root: bool,
    counter: &mut u32,
    needs: &mut ImportNeeds,
) -> (r: String)
    requires
        is_root ==> *old(counter) < u32::MAX,
    ensures
        *final(counter) == (if is_root { *old(counter) + 1 } else { *old(counter) as int }),
        r@ == "_jsxSorted(_Fragment, null, null, "@ + children_text(views(children@)) + ", 1, "@ + (if is_root {
            "\""@ + decimal(*old(counter) as nat) + "\""@
        } else {
            "null"@
        }) + ")"@,
        final(needs).jsx_sorted == (old(needs).jsx_sorted || at_root),
        final(needs).fragment == (old(needs).fragment || at_root),
        final(needs).jsx_split == old(needs).jsx_split,
        final(needs).qrl == old(needs).qrl,
        final(needs).inlined_qrl == old(needs).inlined_qrl,
        final(needs).noop_qrl == old(needs).noop_qrl,
        final(needs).fn_signal == old(needs).fn_signal,
        final(needs).wrap_prop == old(needs).wrap_prop,
{
    proof {
        reveal_strlit("null");
        reveal_strlit("\"");
        reveal_strlit(", 1, ");
        reveal_strlit(")");
        reveal_strlit("_jsxSorted(_Fragment, null, null, ");
    }
    let key = if is_root {
        let k = gen_jsx_key(counter);
        crate::text::concat3("\"", k.as_str(), "\"")
    } else {
        String::from_str("null")
    };
    let children_c = children_code(children);
    let mut r = String::from_str("_jsxSorted(_Fragment, null, null, ");
    r.append(children_c.as_str());
    r.append(", 1, ");
    r.append(key.as_str());
    r.append(")");
    if at_root {
        needs.jsx_sorted = true;
        needs.fragment = true;
    }
    r
}

} // verus!
