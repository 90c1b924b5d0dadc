//! Post-processing of emitted JavaScript text.

use vstd::prelude::*;

use crate::code_move::{starts_with, views};
use crate::text::{
    chars_of, join_lines, join_with_newlines, lines_of, push_char, push_chars, skip_ws_backward,
    split_lines, trim_bounds, trim_end_ws, trim_ws,
};

verus! {

/// Whether `s` holds `c`.
pub open spec fn contains_char(s: Seq<char>, c: char) -> bool {
    exists|i: int| 0 <= i < s.len() && s[i] == c
}

/// Three lines `...{` / `key: value[,]` / `}` or `},` that form a single-property object.
pub open spec fn collapsible(l1: Seq<char>, l2: Seq<char>, l3: Seq<char>) -> bool {
    let t1 = trim_end_ws(l1);
    let t2 = trim_ws(l2);
    let t3 = trim_ws(l3);
    &&& t1.len() > 0 && t1.last() == '{'
    &&& (t3 == seq!['}'] || t3 == seq!['}', ','])
    &&& t2.len() > 0
    &&& !contains_char(t2, '{')
    &&& !contains_char(t2, '}')
    &&& !starts_with(t2, seq!['/', '/'])
}

/// The one line that replaces a collapsible triple: `{prefix}{ {prop} }{suffix}`,
/// where the property loses one trailing `,` and the suffix is the closing line's `,`.
pub open spec fn collapsed(l1: Seq<char>, l2: Seq<char>, l3: Seq<char>) -> Seq<char> {
    let t1 = trim_end_ws(l1);
    let t2 = trim_ws(l2);
    let t3 = trim_ws(l3);
    let prop = if t2.last() == ',' {
        t2.drop_last()
    } else {
        t2
    };
    let suffix = if t3 == seq!['}', ','] {
        seq![',']
    } else {
        Seq::empty()
    };
    t1.drop_last() + seq!['{', ' '] + prop + seq![' ', '}'] + suffix
}

/// The lines with every collapsible triple, scanning from the top, replaced by one line.
pub open spec fn collapse_lines(ls: Seq<Seq<char>>) -> Seq<Seq<char>>
    decreases ls.len(),
{
    if ls.len() == 0 {
        Seq::empty()
    } else if ls.len() >= 3 && collapsible(ls[0], ls[1], ls[2]) {
        seq![collapsed(ls[0], ls[1], ls[2])] + collapse_lines(ls.skip(3))
    } else {
        seq![ls[0]] + collapse_lines(ls.skip(1))
    }
}

fn has_char_in(v: &[char], from: usize, to: usize, c: char) -> (r: bool)
    requires
        from <= to <= v@.len(),
    ensures
        r == contains_char(v@.subrange(from as int, to as int), c),
{
    let ghost s = v@.subrange(from as int, to as int);
    let mut k = from;
    while k < to
        invariant
            from <= k <= to <= v@.len(),
            s == v@.subrange(from as int, to as int),
            forall|j: int| from <= j < k ==> v@[j] != c,
        decreases to - k,
    {
        if v[k] == c {
            assert(s[k - from] == c);
            return true;
        }
        k += 1;
    }
    assert forall|i: int| 0 <= i < s.len() implies s[i] != c by {
        assert(s[i] == v@[from + i]);
    }
    false
}

/// Collapse a triple of lines when it is a single-property object.
fn try_collapse(l1: &Vec<char>, l2: &Vec<char>, l3: &Vec<char>) -> (r: Option<String>)
    ensures
        match r {
            Some(s) => collapsible(l1@, l2@, l3@) && s@ == collapsed(l1@, l2@, l3@),
            None => !collapsible(l1@, l2@, l3@),
        },
{
    assert(l1@.subrange(0, l1@.len() as int) =~= l1@);
    assert(l2@.subrange(0, l2@.len() as int) =~= l2@);
    assert(l3@.subrange(0, l3@.len() as int) =~= l3@);
    let e1 = skip_ws_backward(l1, 0, l1.len());
    let (a2, b2) = trim_bounds(l2, 0, l2.len());
    let (a3, b3) = trim_bounds(l3, 0, l3.len());
    let ghost t2 = l2@.subrange(a2 as int, b2 as int);
    let ghost t3 = l3@.subrange(a3 as int, b3 as int);
    if !(e1 > 0 && l1[e1 - 1] == '{') {
        return None;
    }
    let close_plain = b3 - a3 == 1 && l3[a3] == '}';
    let close_comma = b3 - a3 == 2 && l3[a3] == '}' && l3[a3 + 1] == ',';
    assert(close_plain == (t3 == seq!['}'])) by {
        if t3 == seq!['}'] {
            assert(t3.len() == 1);
            assert(l3@.subrange(a3 as int, b3 as int)[0] == l3@[a3 as int]);
        }
        if close_plain {
            assert(t3 =~= seq!['}']);
        }
    }
    assert(close_comma == (t3 == seq!['}', ','])) by {
        if t3 == seq!['}', ','] {
            assert(t3.len() == 2);
            assert(l3@.subrange(a3 as int, b3 as int)[0] == l3@[a3 as int]);
            assert(l3@.subrange(a3 as int, b3 as int)[1] == l3@[a3 + 1]);
        }
        if close_comma {
            assert(t3 =~= seq!['}', ',']);
        }
    }
    if !(close_plain || close_comma) {
        return None;
    }
    if b2 == a2 {
        return None;
    }
    if has_char_in(l2, a2, b2, '{') || has_char_in(l2, a2, b2, '}') {
        return None;
    }
    let slash2 = b2 - a2 >= 2 && l2[a2] == '/' && l2[a2 + 1] == '/';
    assert(slash2 == starts_with(t2, seq!['/', '/'])) by {
        if starts_with(t2, seq!['/', '/']) {
            assert(t2.subrange(0, 2)[0] == l2@[a2 as int]);
            assert(t2.subrange(0, 2)[1] == l2@[a2 + 1]);
        }
        if slash2 {
            assert(t2.subrange(0, 2) =~= seq!['/', '/']);
        }
    }
    if slash2 {
        return None;
    }
    let prop_end = if l2[b2 - 1] == ',' {
        b2 - 1
    } else {
        b2
    };
    let mut r = String::new();
    push_chars(&mut r, l1, 0, e1 - 1);
    push_char(&mut r, '{');
    push_char(&mut r, ' ');
    push_chars(&mut r, l2, a2, prop_end);
    push_char(&mut r, ' ');
    push_char(&mut r, '}');
    if close_comma {
        push_char(&mut r, ',');
    }
    let ghost t1 = l1@.subrange(0, e1 as int);
    assert(t1.drop_last() =~= l1@.subrange(0, e1 - 1));
    assert(prop_end < b2 ==> t2.drop_last() =~= l2@.subrange(a2 as int, prop_end as int));
    assert(r@ =~= collapsed(l1@, l2@, l3@));
    Some(r)
}

/// Collapse single-property object literals spread over three lines into one
/// line (`{ key: value }`).
pub fn collapse_single_prop_objects(code: &str) -> (r: String)
    ensures
        r@ == join_lines(collapse_lines(lines_of(code@))),
{
    let v = chars_of(code);
    let lines = split_lines(&v);
    let ghost lv = lines@.map_values(|l: Vec<char>| l@);
    let mut out: Vec<String> = Vec::new();
    let mut i: usize = 0;
    assert(views(out@) =~= Seq::<Seq<char>>::empty());
    assert(lv.skip(0) =~= lv);
    while i < lines.len()
        invariant
            i <= lines@.len(),
            lv == lines@.map_values(|l: Vec<char>| l@),
            lv == lines_of(code@),
            views(out@) + collapse_lines(lv.skip(i as int)) == collapse_lines(lv),
        decreases lines@.len() - i,
    {
        let ghost rest = lv.skip(i as int);
        let ghost prev = views(out@);
        if lines.len() - i > 2 {
            assert(rest[0] == lines@[i as int]@ && rest[1] == lines@[i + 1]@ && rest[2]
                == lines@[i + 2]@);
            match try_collapse(&lines[i], &lines[i + 1], &lines[i + 2]) {
                Some(s) => {
                    out.push(s);
                    assert(rest.skip(3) =~= lv.skip(i + 3));
                    assert(views(out@) =~= prev.push(collapsed(rest[0], rest[1], rest[2])));
                    i += 3;
                    continue ;
                },
                None => {},
            }
        }
        assert(rest[0] == lines@[i as int]@);
        out.push(crate::text::string_of(&lines[i], 0, lines[i].len()));
        assert(lines@[i as int]@.subrange(0, lines@[i as int]@.len() as int) =~= lines@[i as int]@);
        assert(rest.skip(1) =~= lv.skip(i + 1));
        assert(views(out@) =~= prev.push(rest[0]));
        i += 1;
    }
    assert(lv.skip(lines@.len() as int) =~= Seq::<Seq<char>>::empty());
    join_with_newlines(&out)
}

/// Strip TypeScript type annotations from emitted code: type stripping is not
/// done at this stage, so the code comes back unchanged.
pub fn strip_typescript_types(code: &str) -> (r: String)
    ensures
        r@ == code@,
{
    String::from_str(code)
}

/// Law: collapsing never adds lines.
pub proof fn lemma_collapse_never_adds_lines(ls: Seq<Seq<char>>)
    ensures
        collapse_lines(ls).len() <= ls.len(),
    decreases ls.len(),
{
    if ls.len() >= 3 && collapsible(ls[0], ls[1], ls[2]) {
        lemma_collapse_never_adds_lines(ls.skip(3));
    } else if ls.len() > 0 {
        lemma_collapse_never_adds_lines(ls.skip(1));
    }
}

/// Law: text in which no line ends in `{` (after trailing whitespace) comes
/// back line for line.
pub proof fn lemma_collapse_without_open_brace(ls: Seq<Seq<char>>)
    requires
        forall|i: int|
            0 <= i < ls.len() ==> !(trim_end_ws(#[trigger] ls[i]).len() > 0 && trim_end_ws(
                ls[i],
            ).last() == '{'),
    ensures
        collapse_lines(ls) == ls,
    decreases ls.len(),
{
    if ls.len() > 0 {
        assert forall|i: int| 0 <= i < ls.skip(1).len() implies !(trim_end_ws(
            #[trigger] ls.skip(1)[i],
        ).len() > 0 && trim_end_ws(ls.skip(1)[i]).last() == '{') by {
            assert(ls.skip(1)[i] == ls[i + 1]);
        }
        lemma_collapse_without_open_brace(ls.skip(1));
        assert(!collapsible(ls[0], ls[1], ls[2]) || ls.len() < 3);
        assert(seq![ls[0]] + ls.skip(1) =~= ls);
    }
}

} // verus!
