//! Character-level helpers shared by the string-processing modules.
//!
//! Every function here works on the `Seq<char>` view of `str` / `String`.

use vstd::prelude::*;

use crate::code_move::views;

verus! {

/// ASCII letter or digit.
pub open spec fn is_ascii_alnum(c: char) -> bool {
    ('a' <= c && c <= 'z') || ('A' <= c && c <= 'Z') || ('0' <= c && c <= '9')
}

/// ASCII digit.
pub open spec fn is_ascii_digit(c: char) -> bool {
    '0' <= c && c <= '9'
}

/// ASCII letter.
pub open spec fn is_ascii_alpha(c: char) -> bool {
    ('a' <= c && c <= 'z') || ('A' <= c && c <= 'Z')
}

/// A character of the Unicode `White_Space` property (what `str::trim` removes).
pub open spec fn is_unicode_whitespace(c: char) -> bool {
    ||| ('\u{9}' <= c && c <= '\u{d}')
    ||| c == ' '
    ||| c == '\u{85}'
    ||| c == '\u{a0}'
    ||| c == '\u{1680}'
    ||| ('\u{2000}' <= c && c <= '\u{200a}')
    ||| c == '\u{2028}'
    ||| c == '\u{2029}'
    ||| c == '\u{202f}'
    ||| c == '\u{205f}'
    ||| c == '\u{3000}'
}

pub fn ascii_alnum(c: char) -> (r: bool)
    ensures
        r == is_ascii_alnum(c),
{
    ('a' <= c && c <= 'z') || ('A' <= c && c <= 'Z') || ('0' <= c && c <= '9')
}

pub fn ascii_digit(c: char) -> (r: bool)
    ensures
        r == is_ascii_digit(c),
{
    '0' <= c && c <= '9'
}

pub fn ascii_alpha(c: char) -> (r: bool)
    ensures
        r == is_ascii_alpha(c),
{
    ('a' <= c && c <= 'z') || ('A' <= c && c <= 'Z')
}

pub fn unicode_whitespace(c: char) -> (r: bool)
    ensures
        r == is_unicode_whitespace(c),
{
    ('\u{9}' <= c && c <= '\u{d}') || c == ' ' || c == '\u{85}' || c == '\u{a0}' || c
        == '\u{1680}' || ('\u{2000}' <= c && c <= '\u{200a}') || c == '\u{2028}' || c
        == '\u{2029}' || c == '\u{202f}' || c == '\u{205f}' || c == '\u{3000}'
}

/// The characters of `s`, in order.
pub fn chars_of(s: &str) -> (v: Vec<char>)
    ensures
        v@ == s@,
{
    let mut v: Vec<char> = Vec::new();
    for c in it: s.chars()
        invariant
            v@ == it.seq().take(it.index() as int),
            it.seq() == s@,
    {
        v.push(c);
    }
    v
}

/// Appends one character to a `String` (`String::push`).
#[verifier::external_body]
pub fn push_char(s: &mut String, c: char)
    ensures
        final(s)@ == old(s)@.push(c),
{
    s.push(c);
}

/// Appends the characters `v[from..to]` to `out`.
pub fn push_chars(out: &mut String, v: &[char], from: usize, to: usize)
    requires
        from <= to <= v@.len(),
    ensures
        final(out)@ == old(out)@ + v@.subrange(from as int, to as int),
{
    let mut i = from;
    while i < to
        invariant
            from <= i <= to <= v@.len(),
            out@ == old(out)@ + v@.subrange(from as int, i as int),
        decreases to - i,
    {
        push_char(out, v[i]);
        assert(v@.subrange(from as int, i + 1) == v@.subrange(from as int, i as int).push(v@[i as int]));
        i += 1;
    }
}

/// A `String` holding `v[from..to]`.
pub fn string_of(v: &[char], from: usize, to: usize) -> (s: String)
    requires
        from <= to <= v@.len(),
    ensures
        s@ == v@.subrange(from as int, to as int),
{
    let mut s = String::new();
    push_chars(&mut s, v, from, to);
    s
}

/// A `String` holding the characters of `a` followed by those of `b`.
pub fn concat2(a: &str, b: &str) -> (s: String)
    ensures
        s@ == a@ + b@,
{
    let mut s = String::from_str(a);
    s.append(b);
    s
}

/// A `String` holding the characters of `a`, `b` and `c`, in order.
pub fn concat3(a: &str, b: &str, c: &str) -> (s: String)
    ensures
        s@ == a@ + b@ + c@,
{
    let mut s = String::from_str(a);
    s.append(b);
    s.append(c);
    s
}

/// Equality of the character sequences of two string slices.
pub fn str_eq(a: &str, b: &str) -> (r: bool)
    ensures
        r == (a@ == b@),
{
    let va = chars_of(a);
    let vb = chars_of(b);
    chars_eq(&va, &vb)
}

/// Equality of two character slices.
pub fn chars_eq(a: &[char], b: &[char]) -> (r: bool)
    ensures
        r == (a@ == b@),
{
    if a.len() != b.len() {
        return false;
    }
    let mut i: usize = 0;
    while i < a.len()
        invariant
            a@.len() == b@.len(),
            i <= a@.len(),
            forall|j: int| 0 <= j < i ==> a@[j] == b@[j],
        decreases a@.len() - i,
    {
        if a[i] != b[i] {
            return false;
        }
        i += 1;
    }
    assert(a@ =~= b@);
    true
}

/// Whether `pat` occurs in `text` at position `pos`.
pub open spec fn occurs_at(text: Seq<char>, pat: Seq<char>, pos: int) -> bool {
    0 <= pos && pos + pat.len() <= text.len() && text.subrange(pos, pos + pat.len()) == pat
}

/// Whether `pat` occurs in `text` at position `pos` (executable).
pub fn matches_at(text: &[char], pat: &[char], pos: usize) -> (r: bool)
    ensures
        r == occurs_at(text@, pat@, pos as int),
{
    if pos > text.len() || pat.len() > text.len() - pos {
        return false;
    }
    let mut j: usize = 0;
    while j < pat.len()
        invariant
            pos + pat@.len() <= text@.len(),
            text@.len() <= usize::MAX,
            j <= pat@.len(),
            forall|k: int| 0 <= k < j ==> text@[pos + k] == pat@[k],
        decreases pat@.len() - j,
    {
        if text[pos + j] != pat[j] {
            assert(text@.subrange(pos as int, pos + pat@.len())[j as int] != pat@[j as int]);
            return false;
        }
        j += 1;
    }
    assert(text@.subrange(pos as int, pos + pat@.len()) =~= pat@);
    true
}

/// The first position at or after `from` where `pat` occurs in `text`
/// (what `str::find` gives on the suffix, shifted by `from`).
pub open spec fn find_spec(text: Seq<char>, pat: Seq<char>, from: int) -> Option<int>
    decreases text.len() + 1 - from,
{
    if from < 0 || from > text.len() {
        None
    } else if occurs_at(text, pat, from) {
        Some(from)
    } else {
        find_spec(text, pat, from + 1)
    }
}

/// What `find_spec` gives: the first occurrence at or after `from`.
pub proof fn lemma_find_spec(text: Seq<char>, pat: Seq<char>, from: int)
    requires
        0 <= from,
    ensures
        find_spec(text, pat, from) matches Some(p) ==> from <= p <= text.len() && occurs_at(
            text,
            pat,
            p,
        ) && forall|q: int| from <= q < p ==> !#[trigger] occurs_at(text, pat, q),
        find_spec(text, pat, from) is None ==> forall|q: int|
            from <= q ==> !#[trigger] occurs_at(text, pat, q),
    decreases text.len() + 1 - from,
{
    if from <= text.len() && !occurs_at(text, pat, from) {
        lemma_find_spec(text, pat, from + 1);
    }
}

/// `str::find`, from position `from` on.
pub fn find_from(text: &[char], pat: &[char], from: usize) -> (r: Option<usize>)
    requires
        from <= text@.len(),
    ensures
        match r {
            Some(p) => find_spec(text@, pat@, from as int) == Some(p as int) && from <= p
                && occurs_at(text@, pat@, p as int),
            None => find_spec(text@, pat@, from as int) is None,
        },
{
    let mut i = from;
    while i < text.len()
        invariant
            from <= i <= text@.len(),
            find_spec(text@, pat@, from as int) == find_spec(text@, pat@, i as int),
        decreases text@.len() - i,
    {
        if matches_at(text, pat, i) {
            return Some(i);
        }
        i += 1;
    }
    if matches_at(text, pat, i) {
        return Some(i);
    }
    assert(find_spec(text@, pat@, i + 1) is None);
    None
}

/// The decimal digits of a number.
pub open spec fn decimal(n: nat) -> Seq<char>
    decreases n,
{
    if n < 10 {
        seq![(48 + n) as char]
    } else {
        decimal(n / 10).push((48 + n % 10) as char)
    }
}

/// The decimal text of a number.
pub fn decimal_string(n: u64) -> (r: String)
    ensures
        r@ == decimal(n as nat),
    decreases n,
{
    if n < 10 {
        let mut r = String::new();
        push_char(&mut r, ((48 + n) as u8) as char);
        r
    } else {
        let mut r = decimal_string(n / 10);
        push_char(&mut r, ((48 + n % 10) as u8) as char);
        r
    }
}

/// `s` without its leading Unicode whitespace (`str::trim_start`).
pub open spec fn trim_start_ws(s: Seq<char>) -> Seq<char>
    decreases s.len(),
{
    if s.len() > 0 && is_unicode_whitespace(s[0]) {
        trim_start_ws(s.drop_first())
    } else {
        s
    }
}

/// `s` without its trailing Unicode whitespace (`str::trim_end`).
pub open spec fn trim_end_ws(s: Seq<char>) -> Seq<char>
    decreases s.len(),
{
    if s.len() > 0 && is_unicode_whitespace(s.last()) {
        trim_end_ws(s.drop_last())
    } else {
        s
    }
}

/// `s` without leading and trailing Unicode whitespace (`str::trim`).
pub open spec fn trim_ws(s: Seq<char>) -> Seq<char> {
    trim_end_ws(trim_start_ws(s))
}

/// The index of the first character of `v[from..to]` that is not whitespace
/// (`to` when there is none); `v[i..to]` is then `trim_start` of `v[from..to]`.
pub fn skip_ws_forward(v: &[char], from: usize, to: usize) -> (i: usize)
    requires
        from <= to <= v@.len(),
    ensures
        from <= i <= to,
        v@.subrange(i as int, to as int) == trim_start_ws(v@.subrange(from as int, to as int)),
        i < to ==> !is_unicode_whitespace(v@[i as int]),
        forall|k: int| from <= k < i ==> is_unicode_whitespace(#[trigger] v@[k]),
{
    let mut i = from;
    while i < to && unicode_whitespace(v[i])
        invariant
            from <= i <= to <= v@.len(),
            trim_start_ws(v@.subrange(from as int, to as int)) == trim_start_ws(
                v@.subrange(i as int, to as int),
            ),
            forall|k: int| from <= k < i ==> is_unicode_whitespace(#[trigger] v@[k]),
        decreases to - i,
    {
        assert(v@.subrange(i as int, to as int).drop_first() =~= v@.subrange(i + 1, to as int));
        i += 1;
    }
    i
}

/// The index just after the last character of `v[from..to]` that is not
/// whitespace (`from` when there is none); `v[from..j]` is then `trim_end` of `v[from..to]`.
pub fn skip_ws_backward(v: &[char], from: usize, to: usize) -> (j: usize)
    requires
        from <= to <= v@.len(),
    ensures
        from <= j <= to,
        v@.subrange(from as int, j as int) == trim_end_ws(v@.subrange(from as int, to as int)),
        j > from ==> !is_unicode_whitespace(v@[j - 1]),
{
    let mut j = to;
    while j > from && unicode_whitespace(v[j - 1])
        invariant
            from <= j <= to <= v@.len(),
            trim_end_ws(v@.subrange(from as int, to as int)) == trim_end_ws(
                v@.subrange(from as int, j as int),
            ),
        decreases j - from,
    {
        assert(v@.subrange(from as int, j as int).drop_last() =~= v@.subrange(
            from as int,
            j - 1,
        ));
        j -= 1;
    }
    j
}

/// Trim `v[from..to]` on both sides: the bounds of what remains.
pub fn trim_bounds(v: &[char], from: usize, to: usize) -> (r: (usize, usize))
    requires
        from <= to <= v@.len(),
    ensures
        from <= r.0 <= r.1 <= to,
        v@.subrange(r.0 as int, r.1 as int) == trim_ws(v@.subrange(from as int, to as int)),
{
    let i = skip_ws_forward(v, from, to);
    let j = skip_ws_backward(v, i, to);
    (i, j)
}


// ---------------------------------------------------------------------------
// Unicode alphanumerics (std::char)
// ---------------------------------------------------------------------------

/// What `char::is_alphanumeric` gives for a character.
pub uninterp spec fn unicode_alphanumeric(c: char) -> bool;

/// `char::is_alphanumeric`. The contract names the result and adds what the std
/// documentation states for ASCII: there it holds exactly of letters and digits.
#[verifier::external_body]
pub fn is_alphanumeric(c: char) -> (r: bool)
    ensures
        r == unicode_alphanumeric(c),
        (c as u32) < 128 ==> (r == is_ascii_alnum(c)),
{
    c.is_alphanumeric()
}

/// A character that may stand in an identifier: alphanumeric, `_` or `$`.
pub open spec fn is_ident_char(c: char) -> bool {
    unicode_alphanumeric(c) || c == '_' || c == '$'
}

pub fn ident_char(c: char) -> (r: bool)
    ensures
        r == is_ident_char(c),
{
    c == '_' || c == '$' || is_alphanumeric(c)
}

// ---------------------------------------------------------------------------
// Lines (str::lines) and joining
// ---------------------------------------------------------------------------

/// `s` without one trailing `\r`.
pub open spec fn strip_cr(s: Seq<char>) -> Seq<char> {
    if s.len() > 0 && s.last() == '\r' {
        s.drop_last()
    } else {
        s
    }
}

/// The lines of a text as `str::lines` gives them: split after each `\n`, the
/// `\n` (and a `\r` right before it) removed; no empty last line after a final `\n`.
pub open spec fn lines_of(s: Seq<char>) -> Seq<Seq<char>>
    decreases s.len(),
{
    match first_char_from_text(s, '\n', 0) {
        None => if s.len() == 0 {
            Seq::empty()
        } else {
            seq![s]
        },
        Some(n) => if 0 <= n < s.len() {
            seq![strip_cr(s.subrange(0, n))] + lines_of(s.subrange(n + 1, s.len() as int))
        } else {
            Seq::empty()
        },
    }
}

/// The first position at or after `from` that holds `c`.
pub open spec fn first_char_from_text(s: Seq<char>, c: char, from: int) -> Option<int>
    decreases s.len() - from,
{
    if from < 0 || from >= s.len() {
        None
    } else if s[from] == c {
        Some(from)
    } else {
        first_char_from_text(s, c, from + 1)
    }
}

/// Lines joined with `\n` between them.
pub open spec fn join_lines(lines: Seq<Seq<char>>) -> Seq<char>
    decreases lines.len(),
{
    if lines.len() == 0 {
        Seq::empty()
    } else if lines.len() == 1 {
        lines[0]
    } else {
        join_lines(lines.drop_last()) + seq!['\n'] + lines.last()
    }
}

/// The lines of a text (`str::lines`), as character vectors.
pub fn split_lines(text: &[char]) -> (r: Vec<Vec<char>>)
    ensures
        r@.map_values(|l: Vec<char>| l@) == lines_of(text@),
{
    let mut r: Vec<Vec<char>> = Vec::new();
    let mut start: usize = 0;
    assert(r@.map_values(|l: Vec<char>| l@) =~= Seq::<Seq<char>>::empty());
    assert(text@.subrange(0, text@.len() as int) =~= text@);
    while start < text.len()
        invariant
            start <= text@.len(),
            r@.map_values(|l: Vec<char>| l@) + lines_of(text@.subrange(start as int, text@.len() as int))
                == lines_of(text@),
        decreases text@.len() - start,
    {
        let ghost rest = text@.subrange(start as int, text@.len() as int);
        let mut n = start;
        while n < text.len() && text[n] != '\n'
            invariant
                start <= n <= text@.len(),
                rest == text@.subrange(start as int, text@.len() as int),
                first_char_from_text(rest, '\n', 0) == first_char_from_text(rest, '\n', n - start),
            decreases text@.len() - n,
        {
            n += 1;
        }
        let mut end = n;
        if end > start && text[end - 1] == '\r' && n < text.len() {
            end -= 1;
        }
        let mut line: Vec<char> = Vec::new();
        let mut k = start;
        while k < end
            invariant
                start <= k <= end <= text@.len(),
                line@ == text@.subrange(start as int, k as int),
            decreases end - k,
        {
            line.push(text[k]);
            k += 1;
        }
        let ghost old_r = r@.map_values(|l: Vec<char>| l@);
        r.push(line);
        assert(r@.map_values(|l: Vec<char>| l@) =~= old_r.push(line@));
        if n < text.len() {
            assert(rest.subrange(0, n - start) =~= text@.subrange(start as int, n as int));
            assert(rest.subrange(n - start + 1, rest.len() as int) =~= text@.subrange(
                n + 1,
                text@.len() as int,
            ));
            assert(line@ == strip_cr(rest.subrange(0, n - start)));
            assert(lines_of(rest) =~= seq![line@] + lines_of(
                text@.subrange(n + 1, text@.len() as int),
            ));
            start = n + 1;
        } else {
            assert(first_char_from_text(rest, '\n', n - start) is None);
            assert(line@ =~= rest);
            assert(lines_of(rest) =~= seq![line@]);
            assert(text@.subrange(text@.len() as int, text@.len() as int) =~= Seq::<char>::empty());
            assert(lines_of(Seq::<char>::empty()) =~= Seq::<Seq<char>>::empty());
            start = n;
        }
    }
    assert(text@.subrange(start as int, text@.len() as int) =~= Seq::<char>::empty());
    assert(lines_of(Seq::<char>::empty()) =~= Seq::<Seq<char>>::empty());
    r
}

/// The lines joined with `\n` (`[String]::join("\n")`).
pub fn join_with_newlines(lines: &[String]) -> (r: String)
    ensures
        r@ == join_lines(lines@.map_values(|s: String| s@)),
{
    let ghost vs = lines@.map_values(|s: String| s@);
    let mut r = String::new();
    let mut i: usize = 0;
    while i < lines.len()
        invariant
            i <= lines@.len(),
            vs == lines@.map_values(|s: String| s@),
            r@ == join_lines(vs.take(i as int)),
        decreases lines@.len() - i,
    {
        assert(vs.take(i + 1).drop_last() =~= vs.take(i as int));
        if i > 0 {
            push_char(&mut r, '\n');
        } else {
            assert(vs.take(0) =~= Seq::<Seq<char>>::empty());
        }
        r.append(lines[i].as_str());
        i += 1;
    }
    assert(vs.take(lines@.len() as int) =~= vs);
    r
}

// ---------------------------------------------------------------------------
// Ordering of strings
// ---------------------------------------------------------------------------

/// `a` sorts strictly before `b`: character by character by code point, a
/// proper prefix first (the order of `str`'s `Ord`, since UTF-8 keeps code
/// point order byte by byte).
pub open spec fn lex_lt(a: Seq<char>, b: Seq<char>) -> bool
    decreases a.len(),
{
    if a.len() == 0 {
        b.len() > 0
    } else if b.len() == 0 {
        false
    } else if a[0] != b[0] {
        (a[0] as u32) < (b[0] as u32)
    } else {
        lex_lt(a.drop_first(), b.drop_first())
    }
}

/// `a` sorts before `b` or equals it.
pub open spec fn lex_le(a: Seq<char>, b: Seq<char>) -> bool {
    !lex_lt(b, a)
}

/// Each string sorts before or equal to the next.
pub open spec fn sorted_lex(s: Seq<Seq<char>>) -> bool {
    forall|i: int| 0 <= i < s.len() - 1 ==> lex_le(#[trigger] s[i], s[i + 1])
}

/// `lex_lt` is asymmetric.
pub proof fn lemma_lex_lt_asym(a: Seq<char>, b: Seq<char>)
    ensures
        lex_lt(a, b) ==> !lex_lt(b, a),
    decreases a.len(),
{
    if a.len() > 0 && b.len() > 0 && a[0] == b[0] {
        lemma_lex_lt_asym(a.drop_first(), b.drop_first());
    }
}

/// Whether `a` sorts strictly before `b`.
pub fn lex_less(a: &str, b: &str) -> (r: bool)
    ensures
        r == lex_lt(a@, b@),
{
    let va = chars_of(a);
    let vb = chars_of(b);
    let mut i: usize = 0;
    assert(va@.skip(0) =~= va@);
    assert(vb@.skip(0) =~= vb@);
    while i < va.len() && i < vb.len() && va[i] == vb[i]
        invariant
            i <= va@.len(),
            i <= vb@.len(),
            va@ == a@,
            vb@ == b@,
            lex_lt(a@, b@) == lex_lt(va@.skip(i as int), vb@.skip(i as int)),
        decreases va@.len() - i,
    {
        assert(va@.skip(i as int).drop_first() =~= va@.skip(i + 1));
        assert(vb@.skip(i as int).drop_first() =~= vb@.skip(i + 1));
        i += 1;
    }
    if i == va.len() {
        assert(va@.skip(i as int).len() == 0);
        i < vb.len()
    } else if i == vb.len() {
        false
    } else {
        assert(va@.skip(i as int)[0] == va@[i as int]);
        assert(vb@.skip(i as int)[0] == vb@[i as int]);
        (va[i] as u32) < (vb[i] as u32)
    }
}

/// No string occurs twice.
pub open spec fn distinct_strings(s: Seq<Seq<char>>) -> bool {
    forall|i: int, j: int| 0 <= i < j < s.len() ==> #[trigger] s[i] != #[trigger] s[j]
}

/// Insert `x`, which `names` does not hold, at its place in the sorted `names`.
pub fn insert_sorted(names: &mut Vec<String>, x: String)
    requires
        sorted_lex(views(old(names)@)),
        distinct_strings(views(old(names)@)),
        !views(old(names)@).contains(x@),
    ensures
        sorted_lex(views(final(names)@)),
        distinct_strings(views(final(names)@)),
        forall|m: Seq<char>|
            #![trigger views(final(names)@).contains(m)]
            views(final(names)@).contains(m) <==> (views(old(names)@).contains(m) || m == x@),
{
    let ghost bv = views(names@);
    let mut j: usize = 0;
    while j < names.len() && lex_less(names[j].as_str(), x.as_str())
        invariant
            j <= names@.len(),
            bv == views(names@),
            j > 0 ==> lex_lt(names@[j - 1]@, x@),
        decreases names@.len() - j,
    {
        j += 1;
    }
    let ghost before = names@;
    names.insert(j, x);
    assert(names@ =~= before.subrange(0, j as int).push(x) + before.subrange(
        j as int,
        before.len() as int,
    ));
    let ghost sv = views(names@);
    assert forall|i: int| 0 <= i < sv.len() ==> #[trigger] sv[i] == (if i < j {
        bv[i]
    } else if i == j {
        x@
    } else {
        bv[i - 1]
    }) by {}
    assert forall|i: int| 0 <= i < sv.len() - 1 implies lex_le(#[trigger] sv[i], sv[i + 1]) by {
        if i + 1 < j {
        } else if i + 1 == j {
            lemma_lex_lt_asym(bv[i], x@);
        } else if i == j {
        } else {
        }
    }
    assert forall|a: int, b: int| 0 <= a < b < sv.len() implies #[trigger] sv[a] != #[trigger] sv[b] by {
        if a == j {
            assert(bv.contains(sv[b]));
        } else if b == j {
            assert(bv.contains(sv[a]));
        }
    }
    assert forall|m: Seq<char>| sv.contains(m) <==> (bv.contains(m) || m == x@) by {
        if sv.contains(m) {
            let i = choose|i: int| 0 <= i < sv.len() && sv[i] == m;
            if i < j {
                assert(bv[i] == m);
            } else if i > j {
                assert(bv[i - 1] == m);
            }
        }
        if bv.contains(m) {
            let i = choose|i: int| 0 <= i < bv.len() && bv[i] == m;
            if i < j {
                assert(sv[i] == m);
            } else {
                assert(sv[i + 1] == m);
            }
        }
        if m == x@ {
            assert(sv[j as int] == m);
        }
    }
}

/// Whether one of the strings equals `k`.
pub fn contains_str(v: &Vec<String>, k: &str) -> (r: bool)
    ensures
        r == views(v@).contains(k@),
{
    let mut i: usize = 0;
    while i < v.len()
        invariant
            i <= v@.len(),
            forall|j: int| 0 <= j < i ==> views(v@)[j] != k@,
        decreases v@.len() - i,
    {
        if str_eq(v[i].as_str(), k) {
            assert(views(v@)[i as int] == k@);
            return true;
        }
        i += 1;
    }
    false
}

} // verus!
