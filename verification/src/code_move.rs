//! String-level building blocks of segment modules.
//!
//! The helpers here take code strings and produce code strings: capture reads,
//! HMR hook injection, QRL hoisting, self-referential variable rewriting,
//! import formatting and item deduplication.

use vstd::prelude::*;

use crate::text::{
    lemma_find_spec, occurs_at, matches_at, is_unicode_whitespace, push_char,
    ascii_alnum, ascii_alpha, ident_char, is_ascii_alnum, is_ascii_alpha,
    is_ident_char, join_lines, join_with_newlines, lines_of, split_lines, chars_eq,
    chars_of, concat2, concat3, decimal, decimal_string, find_from, find_spec, push_chars,
    skip_ws_forward, str_eq, string_of, trim_bounds, trim_start_ws, trim_ws, unicode_whitespace,
};

verus! {

// ---------------------------------------------------------------------------
// Small formatters
// ---------------------------------------------------------------------------

/// `import { _captures } from "{core_module}";`
pub open spec fn captures_import_spec(core_module: Seq<char>) -> Seq<char> {
    "import { _captures } from \""@ + core_module + "\";"@
}

/// The captures import statement of a segment module.
pub fn new_module_captures_import(core_module: &str) -> (r: String)
    ensures
        r@ == captures_import_spec(core_module@),
{
    concat3("import { _captures } from \"", core_module, "\";")
}

/// `const {name} = _captures[{i}];` and a newline.
pub open spec fn capture_line(name: Seq<char>, i: nat) -> Seq<char> {
    "const "@ + name + " = _captures["@ + decimal(i) + "];\n"@
}

/// One capture line per captured identifier, by index.
pub open spec fn read_captures_spec(names: Seq<Seq<char>>) -> Seq<char>
    decreases names.len(),
{
    if names.len() == 0 {
        Seq::empty()
    } else {
        read_captures_spec(names.drop_last()) + capture_line(
            names.last(),
            (names.len() - 1) as nat,
        )
    }
}

/// The views of a slice of strings.
pub open spec fn views(v: Seq<String>) -> Seq<Seq<char>> {
    v.map_values(|s: String| s@)
}

/// Individual `const` statements reading each captured identifier by index.
pub fn read_captures(scoped_idents: &[String]) -> (r: String)
    ensures
        r@ == read_captures_spec(views(scoped_idents@)),
{
    let ghost names = views(scoped_idents@);
    let mut r = String::new();
    let mut i: usize = 0;
    while i < scoped_idents.len()
        invariant
            i <= scoped_idents@.len(),
            names == views(scoped_idents@),
            r@ == read_captures_spec(names.take(i as int)),
        decreases scoped_idents@.len() - i,
    {
        assert(names.take(i + 1).drop_last() =~= names.take(i as int));
        r.append("const ");
        r.append(scoped_idents[i].as_str());
        r.append(" = _captures[");
        let digits = decimal_string(i as u64);
        r.append(digits.as_str());
        r.append("];\n");
        assert(r@ =~= read_captures_spec(names.take(i as int)) + capture_line(
            scoped_idents@[i as int]@,
            i as nat,
        ));
        i += 1;
    }
    assert(names.take(scoped_idents@.len() as int) =~= names);
    r
}

/// `export const {name} = {expr};`
pub open spec fn named_export_spec(name: Seq<char>, expr_code: Seq<char>) -> Seq<char> {
    "export const "@ + name + " = "@ + expr_code + ";"@
}

/// A named export statement.
pub fn create_named_export(name: &str, expr_code: &str) -> (r: String)
    ensures
        r@ == named_export_spec(name@, expr_code@),
{
    let mut r = concat3("export const ", name, " = ");
    r.append(expr_code);
    r.append(";");
    r
}

/// `import { spec } from "src";`, or `import { spec as local } from "src";` when
/// the local name differs.
pub open spec fn import_stmt_spec(specifier: Seq<char>, local: Seq<char>, source: Seq<char>) -> Seq<
    char,
> {
    if specifier == local {
        "import { "@ + specifier + " } from \""@ + source + "\";"@
    } else {
        "import { "@ + specifier + " as "@ + local + " } from \""@ + source + "\";"@
    }
}

/// Format a single import statement.
pub fn format_import_stmt(specifier: &str, local: &str, source: &str) -> (r: String)
    ensures
        r@ == import_stmt_spec(specifier@, local@, source@),
{
    let mut r = concat2("import { ", specifier);
    if !str_eq(specifier, local) {
        r.append(" as ");
        r.append(local);
    }
    r.append(" } from \"");
    r.append(source);
    r.append("\";");
    r
}

// ---------------------------------------------------------------------------
// Arrow and function expression surgery
// ---------------------------------------------------------------------------

/// The position of the first `=>` in a code string.
pub open spec fn arrow_pos(e: Seq<char>) -> Option<int> {
    find_spec(e, "=>"@, 0)
}

/// The parameter text of an arrow: the trimmed text before `=>`, without
/// enclosing parentheses; empty when there is no `=>`.
pub open spec fn arrow_params_spec(e: Seq<char>) -> Seq<char> {
    match arrow_pos(e) {
        None => Seq::empty(),
        Some(p) => {
            let pp = trim_ws(e.subrange(0, p));
            if pp.len() > 0 && pp[0] == '(' && pp.last() == ')' {
                pp.subrange(1, pp.len() - 1)
            } else {
                pp
            }
        },
    }
}

/// The concise body of an arrow: the trimmed text after `=>`; the whole code
/// when there is no `=>`.
pub open spec fn arrow_concise_body_spec(e: Seq<char>) -> Seq<char> {
    match arrow_pos(e) {
        None => e,
        Some(p) => trim_ws(e.subrange(p + 2, e.len() as int)),
    }
}

/// The text after the first `=>`, without leading whitespace.
pub open spec fn after_arrow(e: Seq<char>, p: int) -> Seq<char> {
    trim_start_ws(e.subrange(p + 2, e.len() as int))
}

/// `captures` inserted after the `{` that opens an arrow's block body (written
/// as `{ ` followed by the captures); the code unchanged when the arrow has no block body.
pub open spec fn prepend_block_arrow_spec(e: Seq<char>, captures: Seq<char>) -> Seq<char> {
    match arrow_pos(e) {
        Some(p) => {
            let after = after_arrow(e, p);
            if after.len() > 0 && after[0] == '{' {
                e.subrange(0, e.len() - after.len()) + "{ "@ + captures + after.subrange(
                    1,
                    after.len() as int,
                )
            } else {
                e
            }
        },
        None => e,
    }
}

fn arrow_position(v: &[char]) -> (r: Option<usize>)
    ensures
        match r {
            Some(p) => arrow_pos(v@) == Some(p as int) && p + 2 <= v.len(),
            None => arrow_pos(v@) is None,
        },
{
    let pat = chars_of("=>");
    proof {
        reveal_strlit("=>");
    }
    let r = find_from(v, &pat, 0);
    r
}

/// Extract the parameter text of an arrow like `(a, b) => ...` (here `a, b`).
pub fn extract_arrow_params(expr_code: &str) -> (r: String)
    ensures
        r@ == arrow_params_spec(expr_code@),
{
    let v = chars_of(expr_code);
    match arrow_position(&v) {
        None => String::new(),
        Some(p) => {
            let (lo, hi) = trim_bounds(&v, 0, p);
            let ghost pp = v@.subrange(lo as int, hi as int);
            if hi > lo && v[lo] == '(' && v[hi - 1] == ')' {
                assert(pp.subrange(1, pp.len() - 1) =~= v@.subrange(lo + 1, hi - 1));
                string_of(&v, lo + 1, hi - 1)
            } else {
                string_of(&v, lo, hi)
            }
        },
    }
}

/// Extract the concise body of an arrow like `(a) => expr` (here `expr`).
pub fn extract_arrow_concise_body(expr_code: &str) -> (r: String)
    ensures
        r@ == arrow_concise_body_spec(expr_code@),
{
    let v = chars_of(expr_code);
    match arrow_position(&v) {
        None => String::from_str(expr_code),
        Some(p) => {
            let (lo, hi) = trim_bounds(&v, p + 2, v.len());
            string_of(&v, lo, hi)
        },
    }
}

/// Insert `captures` after the `{` that opens the arrow body.
pub fn prepend_into_block_arrow(expr_code: &str, captures: &str) -> (r: String)
    ensures
        r@ == prepend_block_arrow_spec(expr_code@, captures@),
{
    let v = chars_of(expr_code);
    if let Some(p) = arrow_position(&v) {
        let b = skip_ws_forward(&v, p + 2, v.len());
        if b < v.len() && v[b] == '{' {
            let ghost after = after_arrow(v@, p as int);
            assert(after == v@.subrange(b as int, v@.len() as int));
            assert(after.subrange(1, after.len() as int) =~= v@.subrange(b + 1, v@.len() as int));
            let mut r = string_of(&v, 0, b);
            r.append("{ ");
            r.append(captures);
            push_chars(&mut r, &v, b + 1, v.len());
            return r;
        }
    }
    String::from_str(expr_code)
}

/// Whether `s` holds `c`.
pub open spec fn has_char(s: Seq<char>, c: char) -> bool {
    exists|i: int| 0 <= i < s.len() && s[i] == c
}

/// The parenthesis depth after scanning `s`: `(` opens; `)` closes only once a `(` was seen.
pub open spec fn paren_depth(s: Seq<char>) -> int
    decreases s.len(),
{
    if s.len() == 0 {
        0
    } else if s.last() == '(' {
        paren_depth(s.drop_last()) + 1
    } else if s.last() == ')' && has_char(s.drop_last(), '(') {
        paren_depth(s.drop_last()) - 1
    } else {
        paren_depth(s.drop_last())
    }
}

/// Whether position `i` holds the `)` that closes the first parameter list.
pub open spec fn is_params_close(s: Seq<char>, i: int) -> bool {
    0 <= i < s.len() && s[i] == ')' && has_char(s.subrange(0, i), '(') && paren_depth(
        s.subrange(0, i + 1),
    ) == 0
}

/// The first position at or after `from` that closes the first parameter list.
pub open spec fn first_params_close(s: Seq<char>, from: int) -> Option<int>
    decreases s.len() - from,
{
    if from < 0 || from >= s.len() {
        None
    } else if is_params_close(s, from) {
        Some(from)
    } else {
        first_params_close(s, from + 1)
    }
}

/// The first position at or after `from` that holds `c`.
pub open spec fn first_char_from(s: Seq<char>, c: char, from: int) -> Option<int>
    decreases s.len() - from,
{
    if from < 0 || from >= s.len() {
        None
    } else if s[from] == c {
        Some(from)
    } else {
        first_char_from(s, c, from + 1)
    }
}

/// The position of the `{` opening a function body: the first `{` after the
/// `)` that closes the first parameter list.
pub open spec fn function_body_brace_spec(s: Seq<char>) -> Option<int> {
    match first_params_close(s, 0) {
        Some(c) => first_char_from(s, '{', c + 1),
        None => None,
    }
}

/// Find the opening brace of the function body in a function expression
/// (a character index).
pub fn find_function_body_brace(code: &[char]) -> (r: Option<usize>)
    requires
        code@.len() < 0x8000_0000,
    ensures
        match r {
            Some(b) => function_body_brace_spec(code@) == Some(b as int),
            None => function_body_brace_spec(code@) is None,
        },
{
    let mut depth: i32 = 0;
    let mut in_params = false;
    let mut paren_close: Option<usize> = None;
    let mut i: usize = 0;
    while i < code.len()
        invariant_except_break
            i <= code@.len() < 0x8000_0000,
            depth == paren_depth(code@.take(i as int)),
            -(i as int) <= depth <= i,
            in_params == has_char(code@.take(i as int), '('),
            first_params_close(code@, 0) == first_params_close(code@, i as int),
            paren_close is None,
        ensures
            match paren_close {
                Some(c) => first_params_close(code@, 0) == Some(c as int) && c < code@.len(),
                None => first_params_close(code@, 0) is None,
            },
        decreases code@.len() - i,
    {
        let b = code[i];
        let ghost pre = code@.take(i as int);
        let ghost next = code@.take(i + 1);
        assert(next.drop_last() =~= pre);
        assert(next.last() == b);
        assert(code@.subrange(0, i as int) =~= pre);
        assert(code@.subrange(0, i + 1) =~= next);
        if b == '(' {
            assert(has_char(next, '(')) by {
                assert(next[i as int] == '(');
            }
            in_params = true;
            depth += 1;
        } else if b == ')' && in_params {
            depth -= 1;
            if depth == 0 {
                paren_close = Some(i);
                break;
            }
        }
        assert(has_char(next, '(') == (has_char(pre, '(') || b == '(')) by {
            if has_char(next, '(') {
                let k = choose|k: int| 0 <= k < next.len() && next[k] == '(';
                if k < i {
                    assert(pre[k] == '(');
                }
            }
            if has_char(pre, '(') {
                let k = choose|k: int| 0 <= k < pre.len() && pre[k] == '(';
                assert(next[k] == '(');
            }
        }
        i += 1;
    }
    let close = match paren_close {
        Some(c) => c,
        None => {
            return None;
        },
    };
    let mut j = close + 1;
    while j < code.len()
        invariant
            close < j <= code@.len(),
            first_params_close(code@, 0) == Some(close as int),
            first_char_from(code@, '{', close + 1) == first_char_from(code@, '{', j as int),
        decreases code@.len() - j,
    {
        if code[j] == '{' {
            assert(first_char_from(code@, '{', j as int) == Some(j as int));
            return Some(j);
        }
        j += 1;
    }
    None
}

/// `captures` inserted right after the `{` that opens a function body; the
/// code unchanged when there is none.
pub open spec fn prepend_function_body_spec(e: Seq<char>, captures: Seq<char>) -> Seq<char> {
    match function_body_brace_spec(e) {
        Some(b) => e.subrange(0, b + 1) + captures + e.subrange(b + 1, e.len() as int),
        None => e,
    }
}

/// Insert `captures` after the first `{` of a function expression body.
pub fn prepend_into_function_body(expr_code: &str, captures: &str) -> (r: String)
    requires
        expr_code@.len() < 0x8000_0000,
    ensures
        r@ == prepend_function_body_spec(expr_code@, captures@),
{
    let v = chars_of(expr_code);
    match find_function_body_brace(&v) {
        Some(b) => {
            proof {
                lemma_first_char_from_in_range(v@, '{', 0);
                lemma_first_char_from_bounds(v@, '{', (first_params_close(v@, 0)->0) + 1);
            }
            let mut r = string_of(&v, 0, b + 1);
            r.append(captures);
            push_chars(&mut r, &v, b + 1, v.len());
            r
        },
        None => String::from_str(expr_code),
    }
}

proof fn lemma_first_char_from_in_range(s: Seq<char>, c: char, from: int)
    ensures
        first_char_from(s, c, from) matches Some(i) ==> from <= i < s.len() && s[i] == c,
    decreases s.len() - from,
{
    if from >= 0 && from < s.len() && s[from] != c {
        lemma_first_char_from_in_range(s, c, from + 1);
    }
}

proof fn lemma_first_char_from_bounds(s: Seq<char>, c: char, from: int)
    ensures
        first_char_from(s, c, from) matches Some(i) ==> 0 <= i < s.len(),
    decreases s.len() - from,
{
    lemma_first_char_from_in_range(s, c, from);
}

/// `\n_useHmr("{dev_path}");\n`
pub open spec fn hmr_stmt_spec(dev_path: Seq<char>) -> Seq<char> {
    "\n_useHmr(\""@ + dev_path + "\");\n"@
}

/// The code with `_useHmr("{dev_path}");` made the first statement of the
/// function body: inserted after the `{` of a block arrow, the concise body of
/// an arrow wrapped in a block that calls the hook and returns the body, or
/// inserted after the `{` of a function expression body.
pub open spec fn inject_use_hmr_spec(e: Seq<char>, dev_path: Seq<char>) -> Seq<char> {
    match arrow_pos(e) {
        Some(p) => {
            let after = after_arrow(e, p);
            if after.len() > 0 && after[0] == '{' {
                prepend_block_arrow_spec(e, hmr_stmt_spec(dev_path))
            } else {
                "("@ + arrow_params_spec(e) + ") => {\n_useHmr(\""@ + dev_path + "\");\nreturn "@
                    + after + ";\n}"@
            }
        },
        None => prepend_function_body_spec(e, hmr_stmt_spec(dev_path)),
    }
}

/// Inject `_useHmr("{dev_path}");` as the first statement of a component body.
pub fn inject_use_hmr(expr_code: &str, dev_path: &str) -> (r: String)
    requires
        expr_code@.len() < 0x8000_0000,
    ensures
        r@ == inject_use_hmr_spec(expr_code@, dev_path@),
{
    let hmr_stmt = concat3("\n_useHmr(\"", dev_path, "\");\n");
    let v = chars_of(expr_code);
    if let Some(p) = arrow_position(&v) {
        let b = skip_ws_forward(&v, p + 2, v.len());
        if b < v.len() && v[b] == '{' {
            return prepend_into_block_arrow(expr_code, hmr_stmt.as_str());
        }
        let params_code = extract_arrow_params(expr_code);
        let mut r = concat3("(", params_code.as_str(), ") => {\n_useHmr(\"");
        r.append(dev_path);
        r.append("\");\nreturn ");
        push_chars(&mut r, &v, b, v.len());
        r.append(";\n}");
        return r;
    }
    prepend_into_function_body(expr_code, hmr_stmt.as_str())
}


// ---------------------------------------------------------------------------
// QRL hoisting
// ---------------------------------------------------------------------------

/// The change of bracket depth at a character: `(`, `[`, `{` open, `)`, `]`, `}` close.
pub open spec fn bracket_step(c: char) -> int {
    if c == '(' || c == '[' || c == '{' {
        1
    } else if c == ')' || c == ']' || c == '}' {
        -1
    } else {
        0
    }
}

/// The bracket depth after scanning `s`.
pub open spec fn bracket_depth(s: Seq<char>) -> int
    decreases s.len(),
{
    if s.len() == 0 {
        0
    } else {
        bracket_depth(s.drop_last()) + bracket_step(s.last())
    }
}

/// The first `,` at or after `from` that is outside all brackets.
pub open spec fn first_top_comma(s: Seq<char>, from: int) -> Option<int>
    decreases s.len() - from,
{
    if from < 0 || from >= s.len() {
        None
    } else if s[from] == ',' && bracket_depth(s.take(from)) == 0 {
        Some(from)
    } else {
        first_top_comma(s, from + 1)
    }
}

/// The second argument of an argument list when it starts with a string literal:
/// the text between its opening quote and the next occurrence of that quote.
pub open spec fn second_string_arg_spec(s: Seq<char>) -> Option<Seq<char>> {
    match first_top_comma(s, 0) {
        None => None,
        Some(c) => {
            let a = trim_ws(s.subrange(c + 1, s.len() as int));
            if a.len() > 0 && (a[0] == '"' || a[0] == '\'') {
                match first_char_from(a, a[0], 1) {
                    Some(k) => Some(a.subrange(1, k)),
                    None => None,
                }
            } else {
                None
            }
        },
    }
}

/// Extract the second string argument from a function call's argument list.
pub fn extract_second_string_arg(args: &[char]) -> (r: Option<String>)
    requires
        args@.len() < 0x8000_0000,
    ensures
        match r {
            Some(s) => second_string_arg_spec(args@) == Some(s@),
            None => second_string_arg_spec(args@) is None,
        },
{
    let mut depth: i32 = 0;
    let mut first_comma: Option<usize> = None;
    let mut i: usize = 0;
    while i < args.len()
        invariant_except_break
            i <= args@.len() < 0x8000_0000,
            depth == bracket_depth(args@.take(i as int)),
            -(i as int) <= depth <= i,
            first_top_comma(args@, 0) == first_top_comma(args@, i as int),
            first_comma is None,
        ensures
            match first_comma {
                Some(c) => first_top_comma(args@, 0) == Some(c as int) && c < args@.len(),
                None => first_top_comma(args@, 0) is None,
            },
        decreases args@.len() - i,
    {
        let b = args[i];
        assert(args@.take(i + 1).drop_last() =~= args@.take(i as int));
        if b == '(' || b == '[' || b == '{' {
            depth += 1;
        } else if b == ')' || b == ']' || b == '}' {
            depth -= 1;
        } else if b == ',' && depth == 0 {
            first_comma = Some(i);
            break;
        }
        i += 1;
    }
    let c = match first_comma {
        Some(c) => c,
        None => {
            return None;
        },
    };
    let (lo, hi) = trim_bounds(args, c + 1, args.len());
    let ghost a = args@.subrange(lo as int, hi as int);
    if hi > lo && (args[lo] == '"' || args[lo] == '\'') {
        let quote = args[lo];
        let mut k = lo + 1;
        while k < hi
            invariant
                lo < k <= hi <= args@.len(),
                first_top_comma(args@, 0) == Some(c as int),
                c < args@.len(),
                quote == '"' || quote == '\'',
                a == trim_ws(args@.subrange(c + 1, args@.len() as int)),
                a == args@.subrange(lo as int, hi as int),
                quote == a[0],
                first_char_from(a, quote, 1) == first_char_from(a, quote, k - lo),
            decreases hi - k,
        {
            if args[k] == quote {
                assert(a[k - lo] == quote);
                assert(first_char_from(a, quote, k - lo) == Some(k - lo));
                assert(a.subrange(1, k - lo) =~= args@.subrange(lo + 1, k as int));
                return Some(string_of(args, lo + 1, k));
            }
            k += 1;
        }
        None
    } else {
        None
    }
}

/// The change of parenthesis depth at a character.
pub open spec fn paren_step(c: char) -> int {
    if c == '(' {
        1
    } else if c == ')' {
        -1
    } else {
        0
    }
}

/// The number of `(` minus the number of `)` in `s`.
pub open spec fn paren_balance(s: Seq<char>) -> int
    decreases s.len(),
{
    if s.len() == 0 {
        0
    } else {
        paren_balance(s.drop_last()) + paren_step(s.last())
    }
}

/// The first position at or after `from` of the `)` that closes a call whose
/// arguments start at `start`.
pub open spec fn find_call_close(s: Seq<char>, start: int, from: int) -> Option<int>
    decreases s.len() - from,
{
    if from < start || from >= s.len() {
        None
    } else if s[from] == ')' && paren_balance(s.subrange(start, from)) == 0 {
        Some(from)
    } else {
        find_call_close(s, start, from + 1)
    }
}

/// One hoisting step for a call prefix (such as `qrl(`): find the first call,
/// read the symbol name from its second string argument, and replace the whole
/// call by the name. `None` when there is no call or no such name.
pub open spec fn hoist_step(r: Seq<char>, pfx: Seq<char>) -> Option<(Seq<char>, (Seq<char>, Seq<char>))> {
    match find_spec(r, pfx, 0) {
        None => None,
        Some(cs) => {
            let is = cs + pfx.len();
            let end = match find_call_close(r, is, is) {
                Some(e) => e,
                None => is,
            };
            match second_string_arg_spec(r.subrange(is, end)) {
                None => None,
                Some(name) => Some(
                    (
                        r.subrange(0, cs) + name + r.subrange(end + 1, r.len() as int),
                        (name, r.subrange(cs, end + 1)),
                    ),
                ),
            }
        },
    }
}

/// Hoisting steps for one prefix, repeated until none applies; the pairs found
/// are appended to `acc`.
pub open spec fn hoist_prefix(r: Seq<char>, pfx: Seq<char>, acc: Seq<(Seq<char>, Seq<char>)>) -> (
    Seq<char>,
    Seq<(Seq<char>, Seq<char>)>,
)
    decreases r.len(),
{
    match hoist_step(r, pfx) {
        None => (r, acc),
        Some((r2, pair)) => if r2.len() < r.len() {
            hoist_prefix(r2, pfx, acc.push(pair))
        } else {
            (r, acc)
        },
    }
}

/// `inlinedQrl(` calls are hoisted first, then `qrl(` calls.
pub open spec fn hoist_qrls_spec(e: Seq<char>) -> (Seq<char>, Seq<(Seq<char>, Seq<char>)>) {
    let (r1, h1) = hoist_prefix(e, "inlinedQrl("@, Seq::empty());
    hoist_prefix(r1, "qrl("@, h1)
}

/// The views of a list of string pairs.
pub open spec fn pair_views(v: Seq<(String, String)>) -> Seq<(Seq<char>, Seq<char>)> {
    v.map_values(|p: (String, String)| (p.0@, p.1@))
}

proof fn lemma_first_char_from_range(s: Seq<char>, c: char, from: int)
    ensures
        first_char_from(s, c, from) matches Some(i) ==> from <= i < s.len() && s[i] == c,
    decreases s.len() - from,
{
    if from >= 0 && from < s.len() && s[from] != c {
        lemma_first_char_from_range(s, c, from + 1);
    }
}

proof fn lemma_second_arg_shorter(s: Seq<char>)
    ensures
        second_string_arg_spec(s) matches Some(name) ==> name.len() < s.len(),
{
    if let Some(c) = first_top_comma(s, 0) {
        lemma_first_top_comma_range(s, 0);
        let a = trim_ws(s.subrange(c + 1, s.len() as int));
        lemma_trim_ws_not_longer(s.subrange(c + 1, s.len() as int));
        if a.len() > 0 && (a[0] == '"' || a[0] == '\'') {
            lemma_first_char_from_range(a, a[0], 1);
        }
    }
}

proof fn lemma_first_top_comma_range(s: Seq<char>, from: int)
    ensures
        first_top_comma(s, from) matches Some(i) ==> from <= i < s.len(),
    decreases s.len() - from,
{
    if from >= 0 && from < s.len() && !(s[from] == ',' && bracket_depth(s.take(from)) == 0) {
        lemma_first_top_comma_range(s, from + 1);
    }
}

proof fn lemma_trim_start_not_longer(s: Seq<char>)
    ensures
        crate::text::trim_start_ws(s).len() <= s.len(),
    decreases s.len(),
{
    if s.len() > 0 && crate::text::is_unicode_whitespace(s[0]) {
        lemma_trim_start_not_longer(s.drop_first());
    }
}

proof fn lemma_trim_end_not_longer(s: Seq<char>)
    ensures
        crate::text::trim_end_ws(s).len() <= s.len(),
    decreases s.len(),
{
    if s.len() > 0 && crate::text::is_unicode_whitespace(s.last()) {
        lemma_trim_end_not_longer(s.drop_last());
    }
}

proof fn lemma_trim_ws_not_longer(s: Seq<char>)
    ensures
        trim_ws(s).len() <= s.len(),
{
    lemma_trim_start_not_longer(s);
    lemma_trim_end_not_longer(crate::text::trim_start_ws(s));
}

/// The position of the `)` closing a call whose arguments start at `start`
/// (`start` itself when the call is never closed).
fn call_close(v: &[char], start: usize) -> (r: usize)
    requires
        start <= v@.len() < 0x8000_0000,
    ensures
        r == match find_call_close(v@, start as int, start as int) {
            Some(e) => e,
            None => start as int,
        },
        start <= r,
        r < v@.len() || r == start,
{
    let mut depth: i64 = 1;
    let mut i = start;
    while i < v.len()
        invariant
            start <= i <= v@.len() < 0x8000_0000,
            depth == 1 + paren_balance(v@.subrange(start as int, i as int)),
            -((i - start) as int) <= depth - 1 <= i - start,
            find_call_close(v@, start as int, start as int) == find_call_close(
                v@,
                start as int,
                i as int,
            ),
        decreases v@.len() - i,
    {
        assert(v@.subrange(start as int, i + 1).drop_last() =~= v@.subrange(start as int, i as int));
        if v[i] == '(' {
            depth += 1;
        } else if v[i] == ')' {
            depth -= 1;
            if depth == 0 {
                return i;
            }
        }
        i += 1;
    }
    start
}

/// Scan a code string for `inlinedQrl(` and then `qrl(` calls, replace each
/// call by its symbol name (the second, string argument) and return the
/// rewritten code with the `(symbol name, call code)` pairs in the order found.
pub fn hoist_qrls_from_expr(expr_code: &str) -> (r: (String, Vec<(String, String)>))
    requires
        expr_code@.len() < 0x8000_0000,
    ensures
        (r.0@, pair_views(r.1@)) == hoist_qrls_spec(expr_code@),
{
    let mut result = chars_of(expr_code);
    let mut hoisted: Vec<(String, String)> = Vec::new();
    let p1 = chars_of("inlinedQrl(");
    let p2 = chars_of("qrl(");
    proof {
        reveal_strlit("inlinedQrl(");
        reveal_strlit("qrl(");
    }
    assert(pair_views(hoisted@) =~= Seq::<(Seq<char>, Seq<char>)>::empty());
    hoist_with_prefix(&mut result, &mut hoisted, &p1);
    let ghost mid = (result@, pair_views(hoisted@));
    assert(mid == hoist_prefix(expr_code@, "inlinedQrl("@, Seq::empty()));
    hoist_with_prefix(&mut result, &mut hoisted, &p2);
    let out = string_of(&result, 0, result.len());
    assert(result@.subrange(0, result@.len() as int) =~= result@);
    (out, hoisted)
}

fn hoist_with_prefix(result: &mut Vec<char>, hoisted: &mut Vec<(String, String)>, pfx: &Vec<char>)
    requires
        old(result)@.len() < 0x8000_0000,
        pfx@.len() > 0,
    ensures
        (final(result)@, pair_views(final(hoisted)@)) == hoist_prefix(
            old(result)@,
            pfx@,
            pair_views(old(hoisted)@),
        ),
        final(result)@.len() <= old(result)@.len(),
{
    loop
        invariant
            result@.len() <= old(result)@.len() < 0x8000_0000,
            pfx@.len() > 0,
            hoist_prefix(result@, pfx@, pair_views(hoisted@)) == hoist_prefix(
                old(result)@,
                pfx@,
                pair_views(old(hoisted)@),
            ),
        decreases result@.len(),
    {
        let ghost r0 = result@;
        let ghost h0 = pair_views(hoisted@);
        let start = match find_from(result, pfx, 0) {
            Some(p) => p,
            None => {
                return;
            },
        };
        let inner_start = start + pfx.len();
        let end_pos = call_close(result, inner_start);
        let name = match extract_second_string_arg(&result[inner_start..end_pos]) {
            Some(n) => n,
            None => {
                return;
            },
        };
        proof {
            lemma_second_arg_shorter(r0.subrange(inner_start as int, end_pos as int));
        }
        let call = string_of(result, start, end_pos + 1);
        let v_name = chars_of(name.as_str());
        let mut next: Vec<char> = Vec::new();
        let mut k: usize = 0;
        while k < start
            invariant
                k <= start <= result@.len(),
                next@ == result@.subrange(0, k as int),
            decreases start - k,
        {
            next.push(result[k]);
            k += 1;
        }
        let mut k: usize = 0;
        while k < v_name.len()
            invariant
                k <= v_name@.len(),
                next@ == result@.subrange(0, start as int) + v_name@.subrange(0, k as int),
            decreases v_name@.len() - k,
        {
            next.push(v_name[k]);
            k += 1;
        }
        let mut k: usize = end_pos + 1;
        while k < result.len()
            invariant
                end_pos + 1 <= k <= result@.len(),
                next@ == result@.subrange(0, start as int) + v_name@ + result@.subrange(
                    end_pos + 1,
                    k as int,
                ),
            decreases result@.len() - k,
        {
            next.push(result[k]);
            k += 1;
        }
        assert(v_name@.subrange(0, v_name@.len() as int) =~= v_name@);
        assert(next@ =~= r0.subrange(0, start as int) + name@ + r0.subrange(
            end_pos + 1,
            r0.len() as int,
        ));
        hoisted.push((name, call));
        assert(pair_views(hoisted@) =~= h0.push((v_name@, r0.subrange(start as int, end_pos + 1))));
        *result = next;
    }
}


// ---------------------------------------------------------------------------
// Identifier scanning
// ---------------------------------------------------------------------------

/// A character that starts an identifier in the ASCII scan: a letter, `_` or `$`.
pub open spec fn is_scan_start(c: char) -> bool {
    is_ascii_alpha(c) || c == '_' || c == '$'
}

/// A character that continues an identifier in the ASCII scan: a letter, digit, `_` or `$`.
pub open spec fn is_scan_part(c: char) -> bool {
    is_ascii_alnum(c) || c == '_' || c == '$'
}

/// The identifiers of `s` from position `i` on, in order: maximal runs of
/// letters, digits, `_` and `$` that begin with a letter, `_` or `$`.
/// `start` is where the identifier being read began.
pub open spec fn idents_from(s: Seq<char>, i: int, start: Option<int>) -> Seq<Seq<char>>
    decreases s.len() - i,
{
    if i < 0 || i >= s.len() {
        match start {
            Some(st) => seq![s.subrange(st, s.len() as int)],
            None => Seq::empty(),
        }
    } else {
        match start {
            Some(st) => if is_scan_part(s[i]) {
                idents_from(s, i + 1, Some(st))
            } else {
                seq![s.subrange(st, i)] + idents_from(s, i + 1, None)
            },
            None => if is_scan_start(s[i]) {
                idents_from(s, i + 1, Some(i))
            } else {
                idents_from(s, i + 1, None)
            },
        }
    }
}

/// The identifiers of a code string, in order of appearance (repeats included).
pub open spec fn word_idents_spec(s: Seq<char>) -> Seq<Seq<char>> {
    idents_from(s, 0, None)
}

/// Extract all identifiers from a code string by word-boundary scanning.
pub fn word_idents_in(code: &str) -> (r: Vec<String>)
    ensures
        views(r@) == word_idents_spec(code@),
{
    let v = chars_of(code);
    word_idents_of(&v)
}

fn word_idents_of(v: &[char]) -> (r: Vec<String>)
    ensures
        views(r@) == word_idents_spec(v@),
{
    let mut r: Vec<String> = Vec::new();
    let mut i: usize = 0;
    let mut start: Option<usize> = None;
    assert(views(r@) =~= Seq::<Seq<char>>::empty());
    while i < v.len()
        invariant
            i <= v@.len(),
            start matches Some(st) ==> st < i,
            views(r@) + idents_from(
                v@,
                i as int,
                match start {
                    Some(st) => Some(st as int),
                    None => None,
                },
            ) == word_idents_spec(v@),
        decreases v@.len() - i,
    {
        let c = v[i];
        let part = ascii_alnum(c) || c == '_' || c == '$';
        match start {
            Some(st) => {
                if !part {
                    let ghost old_views = views(r@);
                    r.push(string_of(v, st, i));
                    assert(views(r@) =~= old_views.push(v@.subrange(st as int, i as int)));
                    start = None;
                }
            },
            None => {
                if ascii_alpha(c) || c == '_' || c == '$' {
                    start = Some(i);
                }
            },
        }
        i += 1;
    }
    match start {
        Some(st) => {
            let ghost old_views = views(r@);
            r.push(string_of(v, st, v.len()));
            assert(views(r@) =~= old_views.push(v@.subrange(st as int, v@.len() as int)));
        },
        None => {
            assert(views(r@) =~= views(r@) + Seq::<Seq<char>>::empty());
        },
    }
    r
}

// ---------------------------------------------------------------------------
// Defined symbols and deduplication
// ---------------------------------------------------------------------------

/// The leading identifier characters of `s`.
pub open spec fn ident_prefix(s: Seq<char>) -> Seq<char>
    decreases s.len(),
{
    if s.len() > 0 && is_ident_char(s[0]) {
        seq![s[0]] + ident_prefix(s.drop_first())
    } else {
        Seq::empty()
    }
}

/// The identifier that starts a text (after trimming), if any.
pub open spec fn first_ident_spec(s: Seq<char>) -> Option<Seq<char>> {
    let id = ident_prefix(trim_ws(s));
    if id.len() == 0 {
        None
    } else {
        Some(id)
    }
}

fn ident_prefix_end(v: &[char], from: usize, to: usize) -> (e: usize)
    requires
        from <= to <= v@.len(),
    ensures
        from <= e <= to,
        v@.subrange(from as int, e as int) == ident_prefix(v@.subrange(from as int, to as int)),
{
    let mut e = from;
    while e < to && ident_char(v[e])
        invariant
            from <= e <= to <= v@.len(),
            ident_prefix(v@.subrange(from as int, to as int)) == v@.subrange(from as int, e as int)
                + ident_prefix(v@.subrange(e as int, to as int)),
        decreases to - e,
    {
        let ghost t = v@.subrange(e as int, to as int);
        assert(t.drop_first() =~= v@.subrange(e + 1, to as int));
        assert(v@.subrange(from as int, e + 1) =~= v@.subrange(from as int, e as int) + seq![
            v@[e as int],
        ]);
        e += 1;
    }
    assert(ident_prefix(v@.subrange(e as int, to as int)) =~= Seq::<char>::empty());
    e
}

fn first_ident_in(v: &[char], from: usize, to: usize) -> (r: Option<String>)
    requires
        from <= to <= v@.len(),
    ensures
        match r {
            Some(s) => first_ident_spec(v@.subrange(from as int, to as int)) == Some(s@),
            None => first_ident_spec(v@.subrange(from as int, to as int)) is None,
        },
{
    let (lo, hi) = trim_bounds(v, from, to);
    let e = ident_prefix_end(v, lo, hi);
    if e == lo {
        None
    } else {
        Some(string_of(v, lo, e))
    }
}

/// Extract the identifier that starts a text (after trimming), if any.
pub fn extract_first_ident(s: &str) -> (r: Option<String>)
    ensures
        match r {
            Some(x) => first_ident_spec(s@) == Some(x@),
            None => first_ident_spec(s@) is None,
        },
{
    let v = chars_of(s);
    assert(v@.subrange(0, v@.len() as int) =~= v@);
    first_ident_in(&v, 0, v.len())
}

/// Whether `s` starts with `p`.
pub open spec fn starts_with(s: Seq<char>, p: Seq<char>) -> bool {
    p.len() <= s.len() && s.subrange(0, p.len() as int) == p
}

/// The local binding that the first specifier of an import list defines:
/// `rest` is the text after `import {`. It is the first identifier, unless
/// that identifier is followed by `as`, whitespace and another identifier
/// (`foo as bar`), in which case it is that other identifier.
pub open spec fn import_sym_spec(rest: Seq<char>) -> Option<Seq<char>> {
    let t = trim_ws(rest);
    let id = ident_prefix(t);
    if id.len() == 0 {
        None
    } else {
        let after = trim_start_ws(t.skip(id.len() as int));
        if after.len() > 2 && after[0] == 'a' && after[1] == 's' && is_unicode_whitespace(after[2]) {
            match first_ident_spec(after.skip(2)) {
                Some(alias) => Some(alias),
                None => Some(id),
            }
        } else {
            Some(id)
        }
    }
}

/// The symbol that a code item defines: for `import {`, the local binding of
/// its first specifier (`import_sym_spec`); for `export const `, `export let `,
/// `export var `, `const `, `var ` or `let `, the first identifier after it
/// (the first of these prefixes that the trimmed item starts with); `None`
/// otherwise.
pub open spec fn defined_sym_spec(item: Seq<char>) -> Option<Seq<char>> {
    let s = trim_ws(item);
    if starts_with(s, "import {"@) {
        import_sym_spec(s.skip(8))
    } else if starts_with(s, "export const "@) {
        first_ident_spec(s.skip(13))
    } else if starts_with(s, "export let "@) {
        first_ident_spec(s.skip(11))
    } else if starts_with(s, "export var "@) {
        first_ident_spec(s.skip(11))
    } else if starts_with(s, "const "@) {
        first_ident_spec(s.skip(6))
    } else if starts_with(s, "var "@) {
        first_ident_spec(s.skip(4))
    } else if starts_with(s, "let "@) {
        first_ident_spec(s.skip(4))
    } else {
        None
    }
}

pub(crate) fn has_prefix_at(v: &[char], from: usize, to: usize, lit: &str) -> (r: bool)
    requires
        from <= to <= v@.len(),
    ensures
        r == starts_with(v@.subrange(from as int, to as int), lit@),
{
    let p = chars_of(lit);
    if p.len() > to - from {
        return false;
    }
    let mut j: usize = 0;
    while j < p.len()
        invariant
            from + p@.len() <= to <= v@.len(),
            p@ == lit@,
            j <= p@.len(),
            forall|k: int| 0 <= k < j ==> v@[from + k] == p@[k],
        decreases p@.len() - j,
    {
        if v[from + j] != p[j] {
            assert(v@.subrange(from as int, to as int).subrange(0, p@.len() as int)[j as int]
                != lit@[j as int]);
            return false;
        }
        j += 1;
    }
    assert(v@.subrange(from as int, to as int).subrange(0, p@.len() as int) =~= lit@);
    true
}

fn import_sym_in(v: &[char], from: usize, to: usize) -> (r: Option<String>)
    requires
        from <= to <= v@.len(),
    ensures
        match r {
            Some(s) => import_sym_spec(v@.subrange(from as int, to as int)) == Some(s@),
            None => import_sym_spec(v@.subrange(from as int, to as int)) is None,
        },
{
    let (a, b) = trim_bounds(v, from, to);
    let e = ident_prefix_end(v, a, b);
    if e == a {
        return None;
    }
    let ghost t = v@.subrange(a as int, b as int);
    assert(t.skip(e - a) =~= v@.subrange(e as int, b as int));
    let c = skip_ws_forward(v, e, b);
    let ghost after = v@.subrange(c as int, b as int);
    if b - c > 2 && v[c] == 'a' && v[c + 1] == 's' && unicode_whitespace(v[c + 2]) {
        assert(after[0] == v@[c as int] && after[1] == v@[c + 1] && after[2] == v@[c + 2]);
        assert(after.skip(2) =~= v@.subrange(c + 2, b as int));
        match first_ident_in(v, c + 2, b) {
            Some(alias) => {
                return Some(alias);
            },
            None => {},
        }
    } else {
        assert(!(after.len() > 2 && after[0] == 'a' && after[1] == 's' && is_unicode_whitespace(
            after[2],
        )));
    }
    Some(string_of(v, a, e))
}

/// Extract the symbol that a code item defines.
pub fn extract_defined_sym(item: &str) -> (r: Option<String>)
    ensures
        match r {
            Some(x) => defined_sym_spec(item@) == Some(x@),
            None => defined_sym_spec(item@) is None,
        },
{
    let v = chars_of(item);
    let (lo, hi) = trim_bounds(&v, 0, v.len());
    assert(v@.subrange(0, v@.len() as int) =~= v@);
    let ghost s = v@.subrange(lo as int, hi as int);
    proof {
        reveal_strlit("import {");
        reveal_strlit("export const ");
        reveal_strlit("export let ");
        reveal_strlit("export var ");
        reveal_strlit("const ");
        reveal_strlit("var ");
        reveal_strlit("let ");
    }
    if has_prefix_at(&v, lo, hi, "import {") {
        assert(s.skip(8) =~= v@.subrange(lo + 8, hi as int));
        return import_sym_in(&v, lo + 8, hi);
    }
    let skip = if has_prefix_at(&v, lo, hi, "export const ") {
        13
    } else if has_prefix_at(&v, lo, hi, "export let ") {
        11
    } else if has_prefix_at(&v, lo, hi, "export var ") {
        11
    } else if has_prefix_at(&v, lo, hi, "const ") {
        6
    } else if has_prefix_at(&v, lo, hi, "var ") {
        4
    } else if has_prefix_at(&v, lo, hi, "let ") {
        4
    } else {
        return None;
    };
    assert(s.skip(skip as int) =~= v@.subrange(lo + skip, hi as int));
    first_ident_in(&v, lo + skip, hi)
}

/// Items in order, dropping every item whose defined symbol was already defined
/// by an earlier kept item (items that define nothing are all kept); `seen`
/// holds the symbols defined so far.
pub open spec fn dedup_spec(items: Seq<Seq<char>>, seen: Set<Seq<char>>) -> Seq<Seq<char>>
    decreases items.len(),
{
    if items.len() == 0 {
        Seq::empty()
    } else {
        match defined_sym_spec(items[0]) {
            Some(sym) => if seen.contains(sym) {
                dedup_spec(items.drop_first(), seen)
            } else {
                seq![items[0]] + dedup_spec(items.drop_first(), seen.insert(sym))
            },
            None => seq![items[0]] + dedup_spec(items.drop_first(), seen),
        }
    }
}

/// Remove duplicate items by their defined symbol name (the first one stays).
pub fn dedup_by_sym(items: Vec<String>) -> (r: Vec<String>)
    ensures
        views(r@) == dedup_spec(views(items@), Set::empty()),
{
    let ghost all = views(items@);
    let mut seen: Vec<Vec<char>> = Vec::new();
    let mut result: Vec<String> = Vec::new();
    let mut i: usize = 0;
    assert(views(result@) =~= Seq::<Seq<char>>::empty());
    assert(all.skip(0) =~= all);
    assert(seen@.map_values(|s: Vec<char>| s@).to_set() =~= Set::<Seq<char>>::empty());
    while i < items.len()
        invariant
            i <= items@.len(),
            all == views(items@),
            views(result@) + dedup_spec(
                all.skip(i as int),
                seen@.map_values(|s: Vec<char>| s@).to_set(),
            ) == dedup_spec(all, Set::empty()),
        decreases items@.len() - i,
    {
        let ghost seen_set = seen@.map_values(|s: Vec<char>| s@).to_set();
        assert(all.skip(i as int)[0] == items@[i as int]@);
        assert(all.skip(i as int).drop_first() =~= all.skip(i + 1));
        let item = &items[i];
        match extract_defined_sym(item.as_str()) {
            Some(sym) => {
                let sv = chars_of(sym.as_str());
                let mut found = false;
                let mut k: usize = 0;
                while k < seen.len()
                    invariant
                        k <= seen@.len(),
                        found == exists|j: int| 0 <= j < k && seen@[j]@ == sv@,
                    decreases seen@.len() - k,
                {
                    if chars_eq(&seen[k], &sv) {
                        found = true;
                    }
                    k += 1;
                }
                assert(found == seen_set.contains(sv@)) by {
                    if found {
                        let j = choose|j: int| 0 <= j < seen@.len() && seen@[j]@ == sv@;
                        assert(seen@.map_values(|s: Vec<char>| s@)[j] == sv@);
                    }
                    let ghost sq = seen@.map_values(|s: Vec<char>| s@);
                    if seen_set.contains(sv@) {
                        assert(sq.contains(sv@));
                        let j = choose|j: int| 0 <= j < sq.len() && #[trigger] sq[j] == sv@;
                        assert(seen@[j]@ == sv@);
                    }
                }
                if !found {
                    let ghost old_views = views(result@);
                    result.push(item.clone());
                    assert(views(result@) =~= old_views + seq![all[i as int]]);
                    let ghost old_sq = seen@.map_values(|s: Vec<char>| s@);
                    seen.push(sv);
                    let ghost new_sq = seen@.map_values(|s: Vec<char>| s@);
                    assert(new_sq =~= old_sq.push(sym@));
                    assert forall|x: Seq<char>| #[trigger] new_sq.contains(x) <==> (old_sq.contains(x)
                        || x == sym@) by {
                        if new_sq.contains(x) {
                            let j = choose|j: int| 0 <= j < new_sq.len() && new_sq[j] == x;
                            if j < old_sq.len() {
                                assert(old_sq[j] == x);
                            }
                        }
                        if old_sq.contains(x) {
                            let j = choose|j: int| 0 <= j < old_sq.len() && old_sq[j] == x;
                            assert(new_sq[j] == x);
                        }
                        if x == sym@ {
                            assert(new_sq[old_sq.len() as int] == x);
                        }
                    }
                    assert(new_sq.to_set() =~= seen_set.insert(sym@));
                }
            },
            None => {
                let ghost old_views = views(result@);
                result.push(item.clone());
                assert(views(result@) =~= old_views + seq![all[i as int]]);
            },
        }
        i += 1;
    }
    assert(all.skip(items@.len() as int) =~= Seq::<Seq<char>>::empty());
    result
}


// ---------------------------------------------------------------------------
// Whole-word search and replacement
// ---------------------------------------------------------------------------

/// `word` occurs at `p` in `text` with no identifier character right before or after it.
pub open spec fn word_at(text: Seq<char>, word: Seq<char>, p: int) -> bool {
    &&& occurs_at(text, word, p)
    &&& (p == 0 || !is_ident_char(text[p - 1]))
    &&& (p + word.len() >= text.len() || !is_ident_char(text[p + word.len()]))
}

/// Whether `word` occurs in `text` as a whole word (positions at the very end of
/// a non-empty text are not examined).
pub open spec fn contains_word_spec(text: Seq<char>, word: Seq<char>) -> bool {
    exists|p: int| 0 <= p && (p < text.len() || p == 0) && #[trigger] word_at(text, word, p)
}

/// The text from `start` on with every whole-word occurrence of a non-empty
/// `word` replaced by `rep`, scanning occurrences left to right.
pub open spec fn replace_from(text: Seq<char>, word: Seq<char>, rep: Seq<char>, start: int) -> Seq<
    char,
>
    decreases text.len() - start,
{
    if word.len() == 0 || start < 0 || start > text.len() {
        Seq::empty()
    } else {
        match find_spec(text, word, start) {
            None => text.subrange(start, text.len() as int),
            Some(abs) => {
                proof {
                    lemma_find_spec(text, word, start);
                }
                if word_at(text, word, abs) {
                    let ns = abs + word.len();
                    text.subrange(start, abs) + rep + if ns >= text.len() {
                        Seq::empty()
                    } else {
                        replace_from(text, word, rep, ns)
                    }
                } else {
                    let ns = abs + 1;
                    text.subrange(start, abs + 1) + if ns >= text.len() {
                        Seq::empty()
                    } else {
                        replace_from(text, word, rep, ns)
                    }
                }
            },
        }
    }
}

/// Whole-word replacement. With an empty word the text comes back unchanged,
/// or `rep` for an empty text.
pub open spec fn replace_word_spec(text: Seq<char>, word: Seq<char>, rep: Seq<char>) -> Seq<char> {
    if word.len() == 0 {
        if text.len() == 0 {
            rep
        } else {
            text
        }
    } else {
        replace_from(text, word, rep, 0)
    }
}

/// The inputs on which the replacement scan never ends: an empty word with a
/// whole-word position before the end of the text.
pub open spec fn replace_word_diverges(text: Seq<char>, word: Seq<char>) -> bool {
    word.len() == 0 && exists|p: int| 0 <= p < text.len() && #[trigger] word_at(text, word, p)
}

fn word_ok(text: &[char], word: &[char], p: usize) -> (r: bool)
    requires
        occurs_at(text@, word@, p as int),
    ensures
        r == word_at(text@, word@, p as int),
{
    let before_ok = p == 0 || !ident_char(text[p - 1]);
    let after_ok = p + word.len() >= text.len() || !ident_char(text[p + word.len()]);
    before_ok && after_ok
}

/// Whether `word` appears as a whole word in `text`.
pub fn contains_word(text: &str, word: &str) -> (r: bool)
    ensures
        r == contains_word_spec(text@, word@),
{
    let t = chars_of(text);
    let w = chars_of(word);
    let mut start: usize = 0;
    loop
        invariant
            start <= t@.len(),
            t@ == text@,
            w@ == word@,
            forall|q: int| 0 <= q < start ==> !#[trigger] word_at(t@, w@, q),
            start > 0 ==> start < t@.len(),
        decreases t@.len() - start,
    {
        proof {
            lemma_find_spec(t@, w@, start as int);
        }
        match find_from(&t, &w, start) {
            None => {
                assert forall|q: int| 0 <= q && (q < t@.len() || q == 0) implies !#[trigger] word_at(
                    t@,
                    w@,
                    q,
                ) by {
                    if q >= start {
                        assert(!occurs_at(t@, w@, q));
                    }
                }
                return false;
            },
            Some(abs) => {
                assert(abs < t@.len() || abs == 0) by {
                    if w@.len() == 0 {
                        assert(occurs_at(t@, w@, start as int)) by {
                            assert(t@.subrange(start as int, start as int) =~= w@);
                        }
                    }
                }
                if word_ok(&t, &w, abs) {
                    return true;
                }
                if abs >= t.len() || abs + 1 >= t.len() {
                    assert forall|q: int| 0 <= q && (q < t@.len() || q == 0) implies !#[trigger] word_at(
                        t@,
                        w@,
                        q,
                    ) by {
                        if q >= start && q < abs {
                            assert(!occurs_at(t@, w@, q));
                        }
                    }
                    return false;
                }
                assert forall|q: int| 0 <= q < abs + 1 implies !#[trigger] word_at(t@, w@, q) by {
                    if q >= start && q < abs {
                        assert(!occurs_at(t@, w@, q));
                    }
                }
                start = abs + 1;
            },
        }
    }
}

/// Replace all whole-word occurrences of `word` in `text` with `replacement`.
pub fn replace_word(text: &str, word: &str, replacement: &str) -> (r: String)
    requires
        !replace_word_diverges(text@, word@),
    ensures
        r@ == replace_word_spec(text@, word@, replacement@),
{
    let t = chars_of(text);
    let w = chars_of(word);
    if w.len() == 0 {
        if t.len() == 0 {
            return String::from_str(replacement);
        }
        return String::from_str(text);
    }
    let mut result = String::new();
    let mut start: usize = 0;
    let tl = t.len();
    loop
        invariant
            0 <= start <= t@.len(),
            tl == t@.len(),
            t@ == text@,
            w@ == word@,
            w@.len() > 0,
            result@ + replace_from(t@, w@, replacement@, start as int) == replace_from(
                t@,
                w@,
                replacement@,
                0,
            ),
        decreases t@.len() - start,
    {
        proof {
            lemma_find_spec(t@, w@, start as int);
        }
        match find_from(&t, &w, start) {
            None => {
                push_chars(&mut result, &t, start, t.len());
                return result;
            },
            Some(abs) => {
                if word_ok(&t, &w, abs) {
                    push_chars(&mut result, &t, start, abs);
                    result.append(replacement);
                    start = abs + w.len();
                } else {
                    push_chars(&mut result, &t, start, abs + 1);
                    start = abs + 1;
                }
                if start >= t.len() {
                    assert(result@ == replace_from(t@, w@, replacement@, 0));
                    return result;
                }
            },
        }
    }
}

// ---------------------------------------------------------------------------
// fix_self_referential_vars
// ---------------------------------------------------------------------------

/// `s` without its trailing `c` characters.
pub open spec fn trim_end_char(s: Seq<char>, c: char) -> Seq<char>
    decreases s.len(),
{
    if s.len() > 0 && s.last() == c {
        trim_end_char(s.drop_last(), c)
    } else {
        s
    }
}

/// Every character of `s` may stand in an identifier.
pub open spec fn all_ident(s: Seq<char>) -> bool {
    forall|i: int| 0 <= i < s.len() ==> #[trigger] is_ident_char(s[i])
}

/// The pieces of a `const NAME = INIT;` line: the name and the initializer
/// (trimmed, trailing `;` removed), or `None` when the line is not of that form.
pub open spec fn const_decl_parts(line: Seq<char>) -> Option<(Seq<char>, Seq<char>)> {
    let t = trim_ws(line);
    if !starts_with(t, "const "@) {
        None
    } else {
        let rest = t.skip(6);
        match find_spec(rest, " = "@, 0) {
            None => None,
            Some(eq) => {
                let name = trim_ws(rest.take(eq));
                if !all_ident(name) {
                    None
                } else {
                    Some(
                        (name, trim_ws(trim_end_char(trim_ws(rest.skip(eq + 3)), ';'))),
                    )
                }
            },
        }
    }
}

/// The lines that replace a line: a self-referential `const X = ...X...` becomes
/// `const _ref = {};`, `_ref.X = ..._ref.X...;` and `const { X } = _ref;`, each
/// prefixed with the line's first `len(line) - len(trim(line))` characters;
/// any other line stays.
pub open spec fn rewrite_line(line: Seq<char>) -> Seq<Seq<char>> {
    match const_decl_parts(line) {
        Some((name, init)) => if contains_word_spec(init, name) {
            let ind = line.take(line.len() - trim_ws(line).len());
            seq![
                ind + "const _ref = {};"@,
                ind + "_ref."@ + name + " = "@ + replace_word_spec(init, name, "_ref."@ + name)
                    + ";"@,
                ind + "const { "@ + name + " } = _ref;"@,
            ]
        } else {
            seq![line]
        },
        None => seq![line],
    }
}

/// The lines that replace each line, in order.
pub open spec fn rewrite_lines(lines: Seq<Seq<char>>) -> Seq<Seq<char>>
    decreases lines.len(),
{
    if lines.len() == 0 {
        Seq::empty()
    } else {
        rewrite_lines(lines.drop_last()) + rewrite_line(lines.last())
    }
}

/// A line whose rewrite would never end (an empty name whose replacement scan diverges).
pub open spec fn rewrite_diverges(line: Seq<char>) -> bool {
    match const_decl_parts(line) {
        Some((name, init)) => contains_word_spec(init, name) && replace_word_diverges(init, name),
        None => false,
    }
}

/// Rewrite `const X = ...X...` lines whose initializer references `X`.
pub fn fix_self_referential_vars(body_code: &str) -> (r: String)
    requires
        forall|i: int|
            0 <= i < lines_of(body_code@).len() ==> !rewrite_diverges(
                #[trigger] lines_of(body_code@)[i],
            ),
    ensures
        r@ == join_lines(rewrite_lines(lines_of(body_code@))),
{
    let v = chars_of(body_code);
    let lines = split_lines(&v);
    let ghost lv = lines@.map_values(|l: Vec<char>| l@);
    let mut out: Vec<String> = Vec::new();
    let mut i: usize = 0;
    assert(views(out@) =~= Seq::<Seq<char>>::empty());
    while i < lines.len()
        invariant
            i <= lines@.len(),
            lv == lines@.map_values(|l: Vec<char>| l@),
            lv == lines_of(body_code@),
            forall|k: int| 0 <= k < lv.len() ==> !rewrite_diverges(#[trigger] lv[k]),
            views(out@) == rewrite_lines(lv.take(i as int)),
        decreases lines@.len() - i,
    {
        assert(lv.take(i + 1).drop_last() =~= lv.take(i as int));
        assert(lines@[i as int]@ == lv[i as int]);
        let replaced = rewrite_one_line(&lines[i]);
        let ghost old_out = views(out@);
        let mut k: usize = 0;
        while k < replaced.len()
            invariant
                k <= replaced@.len(),
                views(out@) == old_out + views(replaced@).take(k as int),
            decreases replaced@.len() - k,
        {
            let ghost prev = views(out@);
            out.push(replaced[k].clone());
            assert(views(out@) =~= prev.push(replaced@[k as int]@));
            assert(views(replaced@).take(k + 1) =~= views(replaced@).take(k as int).push(
                replaced@[k as int]@,
            ));
            k += 1;
        }
        assert(views(replaced@).take(replaced@.len() as int) =~= views(replaced@));
        i += 1;
    }
    assert(lv.take(lines@.len() as int) =~= lv);
    join_with_newlines(&out)
}

/// Whether rewriting some line of `code` would never end (see `rewrite_diverges`).
pub open spec fn some_rewrite_diverges(code: Seq<char>) -> bool {
    exists|i: int| 0 <= i < lines_of(code).len() && rewrite_diverges(#[trigger] lines_of(code)[i])
}

/// Whether `fix_self_referential_vars` would never end on `code`: some line is
/// `const  = INIT` with an empty name and an initializer in which the empty
/// name stands as a whole word before its end.
pub fn self_reference_rewrite_diverges(code: &str) -> (r: bool)
    ensures
        r == some_rewrite_diverges(code@),
{
    let v = chars_of(code);
    let lines = split_lines(&v);
    let ghost lv = lines@.map_values(|l: Vec<char>| l@);
    let mut i: usize = 0;
    while i < lines.len()
        invariant
            i <= lines@.len(),
            lv == lines@.map_values(|l: Vec<char>| l@),
            lv == lines_of(code@),
            forall|k: int| 0 <= k < i ==> !rewrite_diverges(#[trigger] lv[k]),
        decreases lines@.len() - i,
    {
        assert(lines@[i as int]@ == lv[i as int]);
        if line_rewrite_diverges(&lines[i]) {
            return true;
        }
        i += 1;
    }
    false
}

fn line_rewrite_diverges(line: &Vec<char>) -> (r: bool)
    ensures
        r == rewrite_diverges(line@),
{
    let (parts, _lo, _hi) = const_parts(line);
    match parts {
        None => false,
        Some((name, init)) => {
            if name.as_str().unicode_len() != 0 {
                return false;
            }
            let t = chars_of(init.as_str());
            let w: Vec<char> = Vec::new();
            assert(w@ =~= name@);
            let mut p: usize = 0;
            while p < t.len()
                invariant
                    p <= t@.len(),
                    t@ == init@,
                    w@ == name@,
                    w@.len() == 0,
                    const_decl_parts(line@) == Some((name@, init@)),
                    forall|q: int| 0 <= q < p ==> !#[trigger] word_at(t@, w@, q),
                decreases t@.len() - p,
            {
                assert(t@.subrange(p as int, p as int) =~= w@);
                if word_ok(&t, &w, p) {
                    assert(word_at(init@, name@, p as int));
                    assert(contains_word_spec(init@, name@));
                    assert(replace_word_diverges(init@, name@));
                    assert(const_decl_parts(line@) == Some((name@, init@)));
                    assert(rewrite_diverges(line@));
                    return true;
                }
                p += 1;
            }
            false
        },
    }
}

/// The name and initializer of a `const NAME = INIT;` line, with the bounds of
/// the trimmed line.
fn const_parts(line: &Vec<char>) -> (r: (Option<(String, String)>, usize, usize))
    ensures
        r.1 <= r.2 <= line@.len(),
        line@.subrange(r.1 as int, r.2 as int) == trim_ws(line@),
        match r.0 {
            Some((n, i)) => const_decl_parts(line@) == Some((n@, i@)),
            None => const_decl_parts(line@) is None,
        },
{
    assert(line@.subrange(0, line@.len() as int) =~= line@);
    let (lo, hi) = trim_bounds(line, 0, line.len());
    proof {
        reveal_strlit("const ");
        reveal_strlit(" = ");
    }
    if !has_prefix_at(line, lo, hi, "const ") {
        return (None, lo, hi);
    }
    let ghost t = line@.subrange(lo as int, hi as int);
    let rest_lo = lo + 6;
    assert(t.skip(6) =~= line@.subrange(rest_lo as int, hi as int));
    let rest = copy_range(line, rest_lo, hi);
    let pat = chars_of(" = ");
    let eq = match find_from(&rest, &pat, 0) {
        Some(e) => e,
        None => {
            return (None, lo, hi);
        },
    };
    let (nlo, nhi) = trim_bounds(&rest, 0, eq);
    assert(rest@.take(eq as int) =~= rest@.subrange(0, eq as int));
    if !all_ident_range(&rest, nlo, nhi) {
        return (None, lo, hi);
    }
    let (ilo, ihi) = trim_bounds(&rest, eq + 3, rest.len());
    assert(rest@.skip(eq + 3) =~= rest@.subrange(eq + 3, rest@.len() as int));
    let ihi2 = trim_semicolons(&rest, ilo, ihi);
    let (jlo, jhi) = trim_bounds(&rest, ilo, ihi2);
    let name = string_of(&rest, nlo, nhi);
    let init = string_of(&rest, jlo, jhi);
    (Some((name, init)), lo, hi)
}

fn copy_range(v: &Vec<char>, from: usize, to: usize) -> (r: Vec<char>)
    requires
        from <= to <= v@.len(),
    ensures
        r@ == v@.subrange(from as int, to as int),
{
    let mut rv: Vec<char> = Vec::new();
    let mut k = from;
    while k < to
        invariant
            from <= k <= to <= v@.len(),
            rv@ == v@.subrange(from as int, k as int),
        decreases to - k,
    {
        rv.push(v[k]);
        k += 1;
    }
    rv
}

fn all_ident_range(v: &Vec<char>, from: usize, to: usize) -> (r: bool)
    requires
        from <= to <= v@.len(),
    ensures
        r == all_ident(v@.subrange(from as int, to as int)),
{
    let ghost name_v = v@.subrange(from as int, to as int);
    let mut k = from;
    while k < to
        invariant
            from <= k <= to <= v@.len(),
            name_v == v@.subrange(from as int, to as int),
            forall|j: int| from <= j < k ==> #[trigger] is_ident_char(v@[j]),
        decreases to - k,
    {
        if !ident_char(v[k]) {
            assert(name_v[k - from] == v@[k as int]);
            assert(!is_ident_char(name_v[k - from]));
            return false;
        }
        k += 1;
    }
    assert forall|j: int| 0 <= j < name_v.len() implies #[trigger] is_ident_char(name_v[j]) by {
        assert(name_v[j] == v@[from + j]);
    }
    true
}

fn trim_semicolons(v: &Vec<char>, from: usize, to: usize) -> (e: usize)
    requires
        from <= to <= v@.len(),
    ensures
        from <= e <= to,
        v@.subrange(from as int, e as int) == trim_end_char(v@.subrange(from as int, to as int), ';'),
{
    let mut e = to;
    while e > from && v[e - 1] == ';'
        invariant
            from <= e <= to <= v@.len(),
            trim_end_char(v@.subrange(from as int, to as int), ';') == trim_end_char(
                v@.subrange(from as int, e as int),
                ';',
            ),
        decreases e - from,
    {
        assert(v@.subrange(from as int, e as int).drop_last() =~= v@.subrange(from as int, e - 1));
        e -= 1;
    }
    e
}

/// The rewrite of one line.
#[verifier::rlimit(30)]
fn rewrite_one_line(line: &Vec<char>) -> (r: Vec<String>)
    requires
        !rewrite_diverges(line@),
    ensures
        views(r@) == rewrite_line(line@),
{
    let mut r: Vec<String> = Vec::new();
    let whole = string_of(line, 0, line.len());
    assert(line@.subrange(0, line@.len() as int) =~= line@);
    let (parts, lo, hi) = const_parts(line);
    let (name, init) = match parts {
        Some(p) => p,
        None => {
            r.push(whole);
            assert(views(r@) =~= seq![line@]);
            return r;
        },
    };
    if !contains_word(init.as_str(), name.as_str()) {
        r.push(whole);
        assert(views(r@) =~= seq![line@]);
        return r;
    }
    let ind = string_of(line, 0, line.len() - (hi - lo));
    let mut l1 = ind.clone();
    l1.append("const _ref = {};");
    let ref_name = concat2("_ref.", name.as_str());
    let new_init = replace_word(init.as_str(), name.as_str(), ref_name.as_str());
    let mut l2 = ind.clone();
    l2.append(ref_name.as_str());
    l2.append(" = ");
    l2.append(new_init.as_str());
    l2.append(";");
    let mut l3 = ind.clone();
    l3.append("const { ");
    l3.append(name.as_str());
    l3.append(" } = _ref;");
    let ghost indv = line@.take(line@.len() - trim_ws(line@).len());
    assert(ind@ =~= indv);
    assert(l1@ =~= indv + "const _ref = {};"@);
    assert(l2@ =~= indv + "_ref."@ + name@ + " = "@ + replace_word_spec(
        init@,
        name@,
        "_ref."@ + name@,
    ) + ";"@);
    assert(l3@ =~= indv + "const { "@ + name@ + " } = _ref;"@);
    r.push(l1);
    r.push(l2);
    r.push(l3);
    assert(views(r@) =~= rewrite_line(line@));
    r
}

} // verus!
