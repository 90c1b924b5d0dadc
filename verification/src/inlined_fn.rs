//! Signal wrapping of JSX prop values: a prop value that reads a captured
//! signal becomes `_fnSignal((p0, p1, ...) => <expr>, [captures])`, the
//! captured identifiers replaced by positional parameters by whole-word
//! replacement.

use vstd::prelude::*;

use crate::module_output::utf8_width;
use crate::text::{
    chars_of, decimal, decimal_string, find_from, find_spec, lemma_find_spec, matches_at, push_char,
    push_chars, str_eq, string_of, trim_bounds, trim_ws,
};

verus! {

/// A character that continues a word for the replacement: ASCII letter or
/// digit, or `_`.
pub open spec fn is_word_char(c: char) -> bool {
    ('a' <= c && c <= 'z') || ('A' <= c && c <= 'Z') || ('0' <= c && c <= '9') || c == '_'
}

fn word_char(c: char) -> (r: bool)
    ensures
        r == is_word_char(c),
{
    ('a' <= c && c <= 'z') || ('A' <= c && c <= 'Z') || ('0' <= c && c <= '9') || c == '_'
}

/// `s` with each whole-word occurrence of `from` (scanning left to right,
/// resuming after each occurrence) replaced by `to`.
pub open spec fn replace_whole_words(s: Seq<char>, from: Seq<char>, to: Seq<char>) -> Seq<char>
    decreases s.len(),
{
    if from.len() == 0 {
        s
    } else {
        match find_spec(s, from, 0) {
            None => s,
            Some(pos) => {
                let after = pos + from.len();
                if 0 <= pos && after <= s.len() {
                    let before_ok = pos == 0 || !is_word_char(s[pos - 1]);
                    let after_ok = after >= s.len() || !is_word_char(s[after]);
                    let rest = replace_whole_words(s.subrange(after, s.len() as int), from, to);
                    if before_ok && after_ok {
                        s.subrange(0, pos) + to + rest
                    } else {
                        s.subrange(0, after) + rest
                    }
                } else {
                    s
                }
            },
        }
    }
}

/// Replace whole-word occurrences of `from` with `to` in `s`.
pub fn replace_word(s: &str, from: &str, to: &str) -> (r: String)
    requires
        from@.len() > 0,
    ensures
        r@ == replace_whole_words(s@, from@, to@),
{
    let v = chars_of(s);
    let f = chars_of(from);
    let mut result = String::new();
    let mut start: usize = 0;
    assert(v@.subrange(0, v@.len() as int) =~= v@);
    assert(result@ + replace_whole_words(v@, from@, to@) =~= replace_whole_words(v@, from@, to@));
    loop
        invariant
            start <= v@.len(),
            v@ == s@,
            f@ == from@,
            f@.len() > 0,
            replace_whole_words(s@, from@, to@) == result@ + replace_whole_words(
                v@.subrange(start as int, v@.len() as int),
                from@,
                to@,
            ),
        decreases v@.len() - start,
    {
        let ghost rem = v@.subrange(start as int, v@.len() as int);
        match find_from(&v, &f, start) {
            None => {
                proof {
                    lemma_find_spec(v@, f@, start as int);
                    lemma_find_spec(rem, f@, 0);
                    if find_spec(rem, f@, 0) is Some {
                        let p = find_spec(rem, f@, 0)->0;
                        assert(rem.subrange(p, p + f@.len()) =~= v@.subrange(start + p, start + p + f@.len()));
                        assert(crate::text::occurs_at(v@, f@, start + p));
                    }
                }
                push_chars(&mut result, &v, start, v.len());
                return result;
            },
            Some(abs) => {
                proof {
                    lemma_find_spec(v@, f@, start as int);
                    lemma_find_spec(rem, f@, 0);
                    let p = abs - start;
                    assert(rem.subrange(p, p + f@.len()) =~= v@.subrange(abs as int, abs + f@.len()));
                    assert(crate::text::occurs_at(rem, f@, p));
                    if find_spec(rem, f@, 0) != Some(p) {
                        let q = find_spec(rem, f@, 0)->0;
                        assert(rem.subrange(q, q + f@.len()) =~= v@.subrange(start + q, start + q + f@.len()));
                        assert(crate::text::occurs_at(v@, f@, start + q));
                    }
                }
                let vl = v.len();
                assert(abs + f@.len() <= vl);
                let after = abs + f.len();
                let before_ok = abs == start || !word_char(v[abs - 1]);
                let after_ok = after >= v.len() || !word_char(v[after]);
                proof {
                    let p = abs - start;
                    if p > 0 {
                        assert(rem[p - 1] == v@[abs - 1]);
                    }
                    if after < v@.len() {
                        assert(rem[p + f@.len()] == v@[after as int]);
                    }
                    assert(rem.subrange(p + f@.len(), rem.len() as int) =~= v@.subrange(
                        after as int,
                        v@.len() as int,
                    ));
                }
                let ghost old_result = result@;
                if before_ok && after_ok {
                    push_chars(&mut result, &v, start, abs);
                    result.append(to);
                    proof {
                        assert(rem.subrange(0, (abs - start) as int) =~= v@.subrange(start as int, abs as int));
                    }
                } else {
                    push_chars(&mut result, &v, start, after);
                    proof {
                        assert(rem.subrange(0, (after - start) as int) =~= v@.subrange(start as int, after as int));
                    }
                }
                start = after;
            },
        }
    }
}


// ---------------------------------------------------------------------------
// _fnSignal wrapping
// ---------------------------------------------------------------------------

/// A prop value expression as the signal wrapping reads it.
#[derive(Debug, Clone)]
pub struct InlinedExpr {
    /// The expression is an arrow function.
    pub is_arrow: bool,
    /// The expression contains a call.
    pub has_call: bool,
    /// The identifiers that are the object of a static member expression
    /// within it (`x` in `x.y`).
    pub member_objects: Vec<String>,
    /// The identifiers that are an operand of a `||` within it.
    pub or_operands: Vec<String>,
    /// What the code generator prints for the statement `const _x = <expr>;`.
    pub printed: String,
}

/// `name` is among `names`.
pub open spec fn names_hold(names: Seq<String>, name: Seq<char>) -> bool {
    exists|j: int| 0 <= j < names.len() && (#[trigger] names[j])@ == name
}

/// A captured identifier is used as an object: the object of a member
/// expression, or an operand of `||`.
pub open spec fn used_as_object(e: InlinedExpr, scoped: Seq<(String, bool)>) -> bool {
    exists|i: int|
        0 <= i < scoped.len() && (names_hold(e.member_objects@, (#[trigger] scoped[i]).0@)
            || names_hold(e.or_operands@, scoped[i].0@))
}

/// The declaration prefix of the printed statement.
pub open spec fn decl_prefix() -> Seq<char> {
    "const _x = "@
}

/// `s` without all leading copies of `p` (`str::trim_start_matches`).
pub open spec fn strip_prefixes(s: Seq<char>, p: Seq<char>) -> Seq<char>
    decreases s.len(),
{
    if p.len() > 0 && p.len() <= s.len() && s.subrange(0, p.len() as int) == p {
        strip_prefixes(s.subrange(p.len() as int, s.len() as int), p)
    } else {
        s
    }
}

/// `s` without its trailing `;` characters (`str::trim_end_matches(';')`).
pub open spec fn strip_semicolons(s: Seq<char>) -> Seq<char>
    decreases s.len(),
{
    if s.len() > 0 && s.last() == ';' {
        strip_semicolons(s.drop_last())
    } else {
        s
    }
}

/// The expression text: the printed statement without `const _x = `, the
/// final `;` and surrounding whitespace.
pub open spec fn serialized(printed: Seq<char>) -> Seq<char> {
    trim_ws(strip_semicolons(strip_prefixes(printed, decl_prefix())))
}

/// Text that cannot be re-evaluated inside a signal function: it holds `=>`,
/// `function`, `class` or `@`.
pub open spec fn aborts(s: Seq<char>) -> bool {
    ||| find_spec(s, "=>"@, 0) is Some
    ||| find_spec(s, "function"@, 0) is Some
    ||| find_spec(s, "class"@, 0) is Some
    ||| find_spec(s, "@"@, 0) is Some
}

/// The name of parameter `i`: `p{i}`.
pub open spec fn param_name(i: nat) -> Seq<char> {
    seq!['p'] + decimal(i)
}

/// `s` with the first `k` captured names replaced by their parameter names.
pub open spec fn rendered_upto(s: Seq<char>, scoped: Seq<(String, bool)>, k: nat) -> Seq<char>
    decreases k,
{
    if k == 0 {
        s
    } else {
        replace_whole_words(
            rendered_upto(s, scoped, (k - 1) as nat),
            scoped[k - 1].0@,
            param_name((k - 1) as nat),
        )
    }
}

/// The number of bytes of `s` in UTF-8 (`str::len`).
pub open spec fn utf8_len(s: Seq<char>) -> int
    decreases s.len(),
{
    if s.len() == 0 {
        0
    } else {
        utf8_len(s.drop_last()) + utf8_width(s.last())
    }
}

/// The parts joined with `, ` between them.
pub open spec fn join_comma(parts: Seq<Seq<char>>) -> Seq<char>
    decreases parts.len(),
{
    if parts.len() == 0 {
        Seq::empty()
    } else if parts.len() == 1 {
        parts[0]
    } else {
        join_comma(parts.drop_last()) + ", "@ + parts.last()
    }
}

/// The parameter list of the signal function: `p0` alone, else
/// `(p0, p1, ...)`.
pub open spec fn params_text(n: nat) -> Seq<char> {
    if n == 1 {
        "p0"@
    } else {
        "("@ + join_comma(Seq::new(n, |i: int| param_name(i as nat))) + ")"@
    }
}

/// The captured names in brackets: `[a, b]`.
pub open spec fn captures_text(scoped: Seq<(String, bool)>) -> Seq<char> {
    "["@ + join_comma(scoped.map_values(|p: (String, bool)| p.0@)) + "]"@
}

/// `s` with `\` and `"` escaped by a backslash.
pub open spec fn escape_quotes(s: Seq<char>) -> Seq<char>
    decreases s.len(),
{
    if s.len() == 0 {
        Seq::empty()
    } else {
        let c = s.last();
        escape_quotes(s.drop_last()) + if c == '\\' || c == '"' {
            seq!['\\', c]
        } else {
            seq![c]
        }
    }
}

/// The `_fnSignal` call for a signal function and its captures; on the server
/// the function's text follows as a string.
pub open spec fn fn_signal_text(arrow: Seq<char>, caps: Seq<char>, is_server: bool) -> Seq<char> {
    if is_server {
        "_fnSignal("@ + arrow + ", "@ + caps + ", "@ + "\""@ + escape_quotes(arrow) + "\""@ + ")"@
    } else {
        "_fnSignal("@ + arrow + ", "@ + caps + ")"@
    }
}

/// What `convert_inlined_fn` gives: the `_fnSignal` call and the signal
/// function when the value can be wrapped, and whether the value counts as
/// constant.
pub open spec fn inlined_fn_result(
    e: InlinedExpr,
    scoped: Seq<(String, bool)>,
    is_const: bool,
    is_server: bool,
) -> (Option<Seq<char>>, Seq<char>, bool) {
    let rendered = rendered_upto(serialized(e.printed@), scoped, scoped.len());
    let arrow = params_text(scoped.len()) + " => "@ + rendered;
    if e.is_arrow {
        (None, Seq::empty(), is_const)
    } else if e.has_call {
        (None, Seq::empty(), false)
    } else if !used_as_object(e, scoped) {
        (None, Seq::empty(), is_const)
    } else if aborts(serialized(e.printed@)) {
        (None, Seq::empty(), is_const)
    } else if utf8_len(rendered) > 150 {
        (None, Seq::empty(), false)
    } else if scoped.len() == 0 {
        (None, Seq::empty(), true)
    } else {
        (Some(fn_signal_text(arrow, captures_text(scoped), is_server)), arrow, false)
    }
}


fn names_contain(names: &Vec<String>, name: &str) -> (r: bool)
    ensures
        r == names_hold(names@, name@),
{
    let mut j: usize = 0;
    while j < names.len()
        invariant
            j <= names@.len(),
            forall|k: int| 0 <= k < j ==> (#[trigger] names@[k])@ != name@,
        decreases names@.len() - j,
    {
        if str_eq(names[j].as_str(), name) {
            return true;
        }
        j += 1;
    }
    false
}

fn object_usage(e: &InlinedExpr, scoped: &Vec<(String, bool)>) -> (r: bool)
    ensures
        r == used_as_object(*e, scoped@),
{
    let mut i: usize = 0;
    while i < scoped.len()
        invariant
            i <= scoped@.len(),
            forall|k: int|
                0 <= k < i ==> !(names_hold(e.member_objects@, (#[trigger] scoped@[k]).0@)
                    || names_hold(e.or_operands@, scoped@[k].0@)),
        decreases scoped@.len() - i,
    {
        let name = scoped[i].0.as_str();
        if names_contain(&e.member_objects, name) || names_contain(&e.or_operands, name) {
            return true;
        }
        i += 1;
    }
    false
}

/// The expression text of a printed `const _x = <expr>;` statement.
fn serialize_printed(printed: &str) -> (r: String)
    ensures
        r@ == serialized(printed@),
{
    let v = chars_of(printed);
    let p = chars_of("const _x = ");
    let n = v.len();
    let mut start: usize = 0;
    proof {
        assert(v@.subrange(0, n as int) =~= v@);
    }
    while p.len() > 0 && matches_at(&v, &p, start)
        invariant
            start <= n == v@.len(),
            p@ == decl_prefix(),
            strip_prefixes(v@.subrange(start as int, n as int), p@) == strip_prefixes(printed@, p@),
            v@ == printed@,
        decreases n - start,
    {
        proof {
            let rest = v@.subrange(start as int, n as int);
            assert(rest.subrange(0, p@.len() as int) =~= v@.subrange(start as int, start + p@.len()));
            assert(rest.subrange(p@.len() as int, rest.len() as int) =~= v@.subrange(
                start + p@.len(),
                n as int,
            ));
        }
        start = start + p.len();
    }
    proof {
        let rest = v@.subrange(start as int, n as int);
        if p@.len() <= rest.len() && rest.subrange(0, p@.len() as int) == p@ {
            assert(rest.subrange(0, p@.len() as int) =~= v@.subrange(start as int, start + p@.len()));
        }
    }
    let mut end: usize = n;
    while end > start && v[end - 1] == ';'
        invariant
            start <= end <= n == v@.len(),
            strip_semicolons(v@.subrange(start as int, end as int)) == strip_semicolons(
                v@.subrange(start as int, n as int),
            ),
        decreases end - start,
    {
        assert(v@.subrange(start as int, end as int).drop_last() =~= v@.subrange(
            start as int,
            end - 1,
        ));
        end -= 1;
    }
    proof {
        if end > start {
            assert(v@.subrange(start as int, end as int).last() == v@[end - 1]);
        }
        assert(v@.subrange(start as int, end as int) == strip_semicolons(
            v@.subrange(start as int, n as int),
        ));
    }
    let (a, b) = trim_bounds(&v, start, end);
    string_of(&v, a, b)
}

fn holds_pattern(v: &Vec<char>, pat: &str) -> (r: bool)
    ensures
        r == (find_spec(v@, pat@, 0) is Some),
{
    let p = chars_of(pat);
    proof {
        lemma_find_spec(v@, p@, 0);
    }
    find_from(v, &p, 0).is_some()
}

fn text_aborts(s: &String) -> (r: bool)
    ensures
        r == aborts(s@),
{
    let v = chars_of(s.as_str());
    holds_pattern(&v, "=>") || holds_pattern(&v, "function") || holds_pattern(&v, "class")
        || holds_pattern(&v, "@")
}

fn param_text(i: usize) -> (r: String)
    ensures
        r@ == param_name(i as nat),
{
    let mut r = String::new();
    push_char(&mut r, 'p');
    let d = decimal_string(i as u64);
    r.append(d.as_str());
    r
}

/// Whether the text is longer than `limit` bytes in UTF-8.
fn utf8_longer_than(s: &String, limit: usize) -> (r: bool)
    requires
        limit <= 1000,
    ensures
        r == (utf8_len(s@) > limit),
{
    let v = chars_of(s.as_str());
    let mut total: usize = 0;
    let mut i: usize = 0;
    while i < v.len()
        invariant
            i <= v@.len(),
            v@ == s@,
            total == utf8_len(v@.subrange(0, i as int)),
            total <= limit,
            limit <= 1000,
        decreases v@.len() - i,
    {
        let c = v[i];
        let w: usize = if (c as u32) < 0x80 {
            1
        } else if (c as u32) < 0x800 {
            2
        } else if (c as u32) < 0x10000 {
            3
        } else {
            4
        };
        proof {
            assert(v@.subrange(0, i + 1).drop_last() =~= v@.subrange(0, i as int));
        }
        total = total + w;
        i += 1;
        if total > limit {
            proof {
                lemma_utf8_len_prefix(v@, i as int);
            }
            return true;
        }
    }
    proof {
        assert(v@.subrange(0, v@.len() as int) =~= v@);
    }
    false
}

proof fn lemma_utf8_len_prefix(s: Seq<char>, k: int)
    requires
        0 <= k <= s.len(),
    ensures
        utf8_len(s.subrange(0, k)) <= utf8_len(s),
    decreases s.len() - k,
{
    if k < s.len() {
        lemma_utf8_len_prefix(s, k + 1);
        assert(s.subrange(0, k + 1).drop_last() =~= s.subrange(0, k));
    } else {
        assert(s.subrange(0, k) =~= s);
    }
}

fn escape_quotes_text(s: &String) -> (r: String)
    ensures
        r@ == escape_quotes(s@),
{
    let v = chars_of(s.as_str());
    let mut r = String::new();
    let mut i: usize = 0;
    while i < v.len()
        invariant
            i <= v@.len(),
            v@ == s@,
            r@ == escape_quotes(v@.subrange(0, i as int)),
        decreases v@.len() - i,
    {
        let c = v[i];
        proof {
            assert(v@.subrange(0, i + 1).drop_last() =~= v@.subrange(0, i as int));
        }
        if c == '\\' || c == '"' {
            push_char(&mut r, '\\');
        }
        push_char(&mut r, c);
        i += 1;
    }
    proof {
        assert(v@.subrange(0, v@.len() as int) =~= v@);
    }
    r
}

/// Wrap a prop value that reads captured identifiers as an object into a
/// `_fnSignal` call (see `inlined_fn_result`). Returns the call when the value
/// qualifies, the signal function's text, and whether the value counts as
/// constant. The captured identifiers are `scoped`, with whether each is a
/// `const`.
pub fn convert_inlined_fn(
    expr: &InlinedExpr,
    scoped_idents: &Vec<(String, bool)>,
    is_const: bool,
    is_server: bool,
) -> (r: (Option<String>, String, bool))
    requires
        forall|i: int| 0 <= i < scoped_idents@.len() ==> (#[trigger] scoped_idents@[i]).0@.len() > 0,
    ensures
        (crate::opt_string_view(r.0), r.1@, r.2) == inlined_fn_result(*expr, scoped_idents@, is_const, is_server),
{
    if expr.is_arrow {
        return (None, String::new(), is_const);
    }
    if expr.has_call {
        return (None, String::new(), false);
    }
    if !object_usage(expr, scoped_idents) {
        return (None, String::new(), is_const);
    }
    let serialized_text = serialize_printed(expr.printed.as_str());
    if text_aborts(&serialized_text) {
        return (None, String::new(), is_const);
    }
    let ghost base = serialized_text@;
    let mut rendered = serialized_text;
    let n = scoped_idents.len();
    let mut k: usize = 0;
    while k < n
        invariant
            k <= n == scoped_idents@.len(),
            forall|i: int| 0 <= i < n ==> (#[trigger] scoped_idents@[i]).0@.len() > 0,
            rendered@ == rendered_upto(base, scoped_idents@, k as nat),
        decreases n - k,
    {
        let name = param_text(k);
        rendered = replace_word(rendered.as_str(), scoped_idents[k].0.as_str(), name.as_str());
        k += 1;
    }
    if utf8_longer_than(&rendered, 150) {
        return (None, String::new(), false);
    }
    if n == 0 {
        return (None, String::new(), true);
    }
    let params = params_string(n);
    let mut arrow = params;
    arrow.append(" => ");
    arrow.append(rendered.as_str());
    let caps = captures_string(scoped_idents);
    let mut call = String::from_str("_fnSignal(");
    call.append(arrow.as_str());
    call.append(", ");
    call.append(caps.as_str());
    if is_server {
        let escaped = escape_quotes_text(&arrow);
        call.append(", ");
        call.append("\"");
        call.append(escaped.as_str());
        call.append("\"");
    }
    call.append(")");
    proof {
        reveal_strlit("_fnSignal(");
        reveal_strlit(" => ");
        reveal_strlit(", ");
        reveal_strlit("\"");
        reveal_strlit(")");
        assert(call@ =~= fn_signal_text(arrow@, caps@, is_server));
    }
    (Some(call), arrow, false)
}

/// The parameter list for `n` captures.
fn params_string(n: usize) -> (r: String)
    requires
        n >= 1,
    ensures
        r@ == params_text(n as nat),
{
    if n == 1 {
        return String::from_str("p0");
    }
    let ghost names = Seq::new(n as nat, |i: int| param_name(i as nat));
    let mut r = String::from_str("(");
    let mut body = String::new();
    let mut i: usize = 0;
    while i < n
        invariant
            i <= n,
            names == Seq::new(n as nat, |i: int| param_name(i as nat)),
            body@ == join_comma(names.take(i as int)),
        decreases n - i,
    {
        let p = param_text(i);
        proof {
            assert(names.take(i + 1).drop_last() =~= names.take(i as int));
            assert(names.take(i + 1).last() == param_name(i as nat));
        }
        if i > 0 {
            body.append(", ");
        }
        body.append(p.as_str());
        proof {
            if i == 0 {
                assert(names.take(1)[0] == param_name(0));
                assert(body@ =~= join_comma(names.take(1)));
            } else {
                assert(body@ =~= join_comma(names.take(i + 1)));
            }
        }
        i += 1;
    }
    proof {
        assert(names.take(n as int) =~= names);
    }
    r.append(body.as_str());
    r.append(")");
    r
}

/// The captured names in brackets.
fn captures_string(scoped: &Vec<(String, bool)>) -> (r: String)
    ensures
        r@ == captures_text(scoped@),
{
    let ghost names = scoped@.map_values(|p: (String, bool)| p.0@);
    let mut body = String::new();
    let mut i: usize = 0;
    while i < scoped.len()
        invariant
            i <= scoped@.len(),
            names == scoped@.map_values(|p: (String, bool)| p.0@),
            body@ == join_comma(names.take(i as int)),
        decreases scoped@.len() - i,
    {
        proof {
            assert(names.take(i + 1).drop_last() =~= names.take(i as int));
            assert(names.take(i + 1).last() == scoped@[i as int].0@);
        }
        if i > 0 {
            body.append(", ");
        }
        body.append(scoped[i].0.as_str());
        proof {
            if i == 0 {
                assert(body@ =~= join_comma(names.take(1)));
            } else {
                assert(body@ =~= join_comma(names.take(i + 1)));
            }
        }
        i += 1;
    }
    proof {
        assert(names.take(scoped@.len() as int) =~= names);
    }
    let mut r = String::from_str("[");
    r.append(body.as_str());
    r.append("]");
    r
}

} // verus!
