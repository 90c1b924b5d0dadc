//! Names of event handlers: JSX event props (`onClick$`, `document:onFocus$`,
//! `window:onResize$`) and the HTML attributes (`q-e:click`, `q-d:focus`,
//! `q-w:resize`) they become, and the `$` suffix of context names.

use vstd::prelude::*;

use crate::code_move::starts_with;
use crate::text::{chars_of, matches_at, push_char, push_chars, str_eq};
use crate::types::CtxKind;

verus! {

/// What `str::to_lowercase` gives for a text: its Unicode lowercase mapping.
pub uninterp spec fn unicode_lowercase(s: Seq<char>) -> Seq<char>;

/// `str::to_lowercase`. The contract names the result (std defines it by the
/// Unicode lowercase mapping, which is not written out here) and states its
/// ASCII part: on ASCII text each capital letter becomes its small letter and
/// every other character stays.
#[verifier::external_body]
fn to_lowercase(s: &str) -> (r: String)
    ensures
        r@ == unicode_lowercase(s@),
        (forall|i: int| 0 <= i < s@.len() ==> (#[trigger] s@[i] as u32) < 128) ==> r@ == s@.map_values(
            |c: char| ascii_lower(c),
        ),
{
    s.to_lowercase()
}

/// An ASCII capital letter.
pub open spec fn is_ascii_upper(c: char) -> bool {
    'A' <= c && c <= 'Z'
}

/// `char::to_ascii_lowercase`.
pub open spec fn ascii_lower(c: char) -> char {
    if is_ascii_upper(c) {
        ((c as u32) + 32) as char
    } else {
        c
    }
}

/// The kebab-case form of a camel-case event name: each ASCII capital and each
/// `-` becomes `-` followed by its lowercase form.
pub open spec fn kebab(name: Seq<char>) -> Seq<char>
    decreases name.len(),
{
    if name.len() == 0 {
        Seq::empty()
    } else {
        let c = name.last();
        kebab(name.drop_last()) + if is_ascii_upper(c) || c == '-' {
            seq!['-', ascii_lower(c)]
        } else {
            seq![c]
        }
    }
}

/// `prefix` followed by the kebab-case form of `name`.
pub open spec fn event_name_spec(name: Seq<char>, prefix: Seq<char>) -> Seq<char> {
    prefix + kebab(name)
}

fn to_ascii_lower(c: char) -> (r: char)
    ensures
        r == ascii_lower(c),
{
    if 'A' <= c && c <= 'Z' {
        let u: u32 = c as u32;
        let b: u8 = (u as u8) + 32;
        assert(b as u32 == u + 32) by (bit_vector)
            requires
                65 <= u <= 90,
                b == (u as u8) + 32,
        ;
        b as char
    } else {
        c
    }
}

/// An event name from a camel-case name: `prefix` then the name in kebab case.
pub fn create_event_name(name: &str, prefix: &str) -> (r: String)
    ensures
        r@ == event_name_spec(name@, prefix@),
{
    let v = chars_of(name);
    let mut r = String::from_str(prefix);
    let mut i: usize = 0;
    while i < v.len()
        invariant
            i <= v@.len(),
            v@ == name@,
            r@ == prefix@ + kebab(v@.take(i as int)),
        decreases v@.len() - i,
    {
        let c = v[i];
        assert(v@.take(i + 1).drop_last() =~= v@.take(i as int));
        if ('A' <= c && c <= 'Z') || c == '-' {
            push_char(&mut r, '-');
            push_char(&mut r, to_ascii_lower(c));
        } else {
            push_char(&mut r, c);
        }
        assert(r@ =~= prefix@ + kebab(v@.take(i + 1)));
        i += 1;
    }
    assert(v@.take(v@.len() as int) =~= v@);
    r
}

/// The attribute prefix and the length of the event scope of a JSX event prop:
/// `window:on` gives `q-w:`, `document:on` gives `q-d:` and `on` gives `q-e:`.
pub open spec fn event_scope(ev: Seq<char>) -> Option<(Seq<char>, int)> {
    if starts_with(ev, "window:on"@) {
        Some(("q-w:"@, 9))
    } else if starts_with(ev, "document:on"@) {
        Some(("q-d:"@, 11))
    } else if starts_with(ev, "on"@) {
        Some(("q-e:"@, 2))
    } else {
        None
    }
}

/// The scope prefix and start index of the event name in a JSX event prop, or
/// `("", usize::MAX)` when the prop names no event.
pub fn get_event_scope_data_from_jsx_event(jsx_event: &str) -> (r: (&'static str, usize))
    ensures
        match event_scope(jsx_event@) {
            Some((prefix, idx)) => r.0@ == prefix && r.1 == idx,
            None => r.0@.len() == 0 && r.1 == usize::MAX,
        },
{
    let v = chars_of(jsx_event);
    let w = chars_of("window:on");
    let d = chars_of("document:on");
    let o = chars_of("on");
    proof {
        assert(v@.subrange(0, w@.len() as int) =~= v@.subrange(0, w@.len() as int));
    }
    if matches_at(&v, &w, 0) {
        proof {
            reveal_strlit("window:on");
            assert(v@.subrange(0, 9) == w@);
        }
        ("q-w:", 9)
    } else if matches_at(&v, &d, 0) {
        proof {
            reveal_strlit("document:on");
        }
        ("q-d:", 11)
    } else if matches_at(&v, &o, 0) {
        proof {
            reveal_strlit("on");
        }
        ("q-e:", 2)
    } else {
        proof {
            reveal_strlit("");
        }
        ("", usize::MAX)
    }
}

/// The HTML attribute of a JSX event prop: props without the `$` suffix or an
/// `on` scope give `None`; `DOMContentLoaded` is spelled out letter by letter;
/// a name starting with `-` keeps its case (without the `-`), any other name is
/// lowercased; the result is the scope prefix then the name in kebab case.
pub open spec fn html_attribute_spec(ev: Seq<char>) -> Option<Seq<char>> {
    if !(ev.len() > 0 && ev.last() == '$') {
        None
    } else {
        match event_scope(ev) {
            None => None,
            Some((prefix, idx)) => {
                let name = ev.subrange(idx, ev.len() - 1);
                if name == "DOMContentLoaded"@ {
                    Some(prefix + "-d-o-m-content-loaded"@)
                } else if name.len() > 0 && name[0] == '-' {
                    Some(event_name_spec(name.drop_first(), prefix))
                } else {
                    Some(event_name_spec(unicode_lowercase(name), prefix))
                }
            },
        }
    }
}

/// Every character of `s` is ASCII.
pub open spec fn ascii_text(s: Seq<char>) -> bool {
    forall|i: int| 0 <= i < s.len() ==> (#[trigger] s[i] as u32) < 128
}

/// `html_attribute_spec` for an ASCII prop: the lowercasing is ASCII
/// lowercasing, character by character.
pub open spec fn html_attribute_ascii_spec(ev: Seq<char>) -> Option<Seq<char>> {
    if !(ev.len() > 0 && ev.last() == '$') {
        None
    } else {
        match event_scope(ev) {
            None => None,
            Some((prefix, idx)) => {
                let name = ev.subrange(idx, ev.len() - 1);
                if name == "DOMContentLoaded"@ {
                    Some(prefix + "-d-o-m-content-loaded"@)
                } else if name.len() > 0 && name[0] == '-' {
                    Some(event_name_spec(name.drop_first(), prefix))
                } else {
                    Some(event_name_spec(name.map_values(|c: char| ascii_lower(c)), prefix))
                }
            },
        }
    }
}

/// Convert a `$`-suffixed JSX event prop name to its HTML attribute name
/// (`onClick$` to `q-e:click`, `window:onClick$` to `q-w:click`); `None` for
/// props that are no event handlers.
pub fn jsx_event_to_html_attribute(jsx_event: &str) -> (r: Option<String>)
    ensures
        match r {
            Some(s) => html_attribute_spec(jsx_event@) == Some(s@),
            None => html_attribute_spec(jsx_event@) is None,
        },
        ascii_text(jsx_event@) ==> html_attribute_spec(jsx_event@) == html_attribute_ascii_spec(
            jsx_event@,
        ),
{
    let v = chars_of(jsx_event);
    if v.len() == 0 || v[v.len() - 1] != '$' {
        return None;
    }
    let (prefix, idx) = get_event_scope_data_from_jsx_event(jsx_event);
    if idx == usize::MAX {
        return None;
    }
    proof {
        reveal_strlit("window:on");
        reveal_strlit("document:on");
        reveal_strlit("on");
        reveal_strlit("q-w:");
        reveal_strlit("q-d:");
        reveal_strlit("q-e:");
        reveal_strlit("");
    }
    proof {
        let k = idx - 1;
        assert(v@.subrange(0, idx as int)[k] == v@[k]);
        assert(v@[k] == 'n');
    }
    assert(idx < v@.len());
    let mut name = String::new();
    push_chars(&mut name, &v, idx, v.len() - 1);
    assert(name@ =~= v@.subrange(idx as int, v@.len() - 1));
    if str_eq(name.as_str(), "DOMContentLoaded") {
        let mut r = String::from_str(prefix);
        r.append("-d-o-m-content-loaded");
        return Some(r);
    }
    let nv = chars_of(name.as_str());
    let processed = if nv.len() > 0 && nv[0] == '-' {
        let mut s = String::new();
        push_chars(&mut s, &nv, 1, nv.len());
        assert(s@ =~= name@.drop_first());
        s
    } else {
        proof {
            if ascii_text(jsx_event@) {
                assert forall|i: int| 0 <= i < name@.len() implies (#[trigger] name@[i] as u32) < 128 by {
                    assert(name@[i] == v@[idx + i]);
                }
            }
        }
        to_lowercase(name.as_str())
    };
    Some(create_event_name(processed.as_str(), prefix))
}

/// A context name without its `$` suffix (unchanged when it has none).
pub open spec fn escape_dollar_spec(name: Seq<char>) -> Seq<char> {
    if name.len() > 0 && name.last() == '$' {
        name.drop_last()
    } else {
        name
    }
}

/// Strip the `$` suffix of a context name, for building display names.
pub fn escape_dollar(name: &str) -> (r: String)
    ensures
        r@ == escape_dollar_spec(name@),
{
    let v = chars_of(name);
    if v.len() > 0 && v[v.len() - 1] == '$' {
        let mut r = String::new();
        push_chars(&mut r, &v, 0, v.len() - 1);
        assert(r@ =~= v@.drop_last());
        r
    } else {
        String::from_str(name)
    }
}

/// A callee named like an event handler marker: `on`, then an ASCII capital or
/// `-`, then at least one more character, ending in `$` (for names of this
/// shape, more than 3 bytes and more than 3 characters are the same thing).
pub open spec fn is_event_handler_name_spec(name: Seq<char>) -> bool {
    &&& name.len() > 3
    &&& name.last() == '$'
    &&& starts_with(name, "on"@)
    &&& (is_ascii_upper(name[2]) || name[2] == '-')
}

/// Whether a callee name matches the event handler pattern `on[A-Z-]...$`.
pub fn is_event_handler_name(name: &str) -> (r: bool)
    ensures
        r == is_event_handler_name_spec(name@),
{
    let v = chars_of(name);
    let o = chars_of("on");
    proof {
        reveal_strlit("on");
    }
    if v.len() <= 3 || v[v.len() - 1] != '$' || !matches_at(&v, &o, 0) {
        return false;
    }
    let c = v[2];
    ('A' <= c && c <= 'Z') || c == '-'
}

/// How a `$`-suffixed JSX attribute becomes a segment: its context kind (an
/// event handler when it names an HTML event attribute, else a JSX prop), the
/// name pushed on the naming stack (the HTML attribute, else the key without
/// `$`), and the key the prop is rewritten to (the HTML attribute on an HTML
/// element, else the key without `$`).
pub open spec fn dollar_attr_spec(key: Seq<char>, html_attr: Option<Seq<char>>, is_component: bool) -> (
    CtxKind,
    Seq<char>,
    Seq<char>,
) {
    match html_attr {
        Some(h) => (CtxKind::EventHandler, h, if is_component { escape_dollar_spec(key) } else { h }),
        None => (CtxKind::JSXProp, escape_dollar_spec(key), escape_dollar_spec(key)),
    }
}

/// The context kind, naming-stack entry and rewritten key of a `$`-suffixed
/// JSX attribute (see `dollar_attr_spec`).
pub fn dollar_attr_names(key: &str, html_attr: Option<&str>, is_component: bool) -> (r: (
    CtxKind,
    String,
    String,
))
    ensures
        (r.0, r.1@, r.2@) == dollar_attr_spec(key@, crate::hash::opt_view(html_attr), is_component),
{
    match html_attr {
        Some(h) => {
            let key_out = if is_component {
                escape_dollar(key)
            } else {
                String::from_str(h)
            };
            (CtxKind::EventHandler, String::from_str(h), key_out)
        },
        None => (CtxKind::JSXProp, escape_dollar(key), escape_dollar(key)),
    }
}

} // verus!
