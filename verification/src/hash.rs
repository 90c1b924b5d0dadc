//! Segment hashing, symbol escaping and the segment naming pipeline.
//!
//! A segment hash is SipHash-1-3 with keys (0, 0) over the bytes of
//! `scope?`, `rel_path` and the display name (written in that order), whose
//! 64-bit result is taken as 8 little-endian bytes, encoded as unpadded URL-safe
//! base64, with every `-` and `_` replaced by `0`.

use vstd::prelude::*;

use crate::source_path::after_last;
use crate::text::{
    decimal,
    decimal_string,
    ascii_alnum,
    ascii_digit,
    chars_of,
    is_ascii_alnum,
    is_ascii_digit,
    push_char,
    push_chars,
};
use crate::types::EmitMode;

verus! {

// ---------------------------------------------------------------------------
// Outside hashing and encoding
// ---------------------------------------------------------------------------

/// What SipHash-1-3 with keys (0, 0) finishes with after the given bytes were
/// written to it.
pub uninterp spec fn siphash13_zero_keys(bytes: Seq<u8>) -> u64;

/// `siphasher::sip::SipHasher13::new_with_keys(0, 0)`, one `Hasher::write` per part,
/// then `Hasher::finish`. The hasher's `write` appends the bytes to one running
/// message (it buffers a partial word and counts the total length), so the
/// contract names the result as a function of the concatenated parts; it states
/// nothing more of it.
#[verifier::external_body]
fn siphash13_of_writes(parts: &Vec<Vec<u8>>) -> (h: u64)
    ensures
        h == siphash13_zero_keys(parts@.map_values(|p: Vec<u8>| p@).flatten()),
{
    let mut hasher = siphasher::sip::SipHasher13::new_with_keys(0, 0);
    for p in parts.iter() {
        std::hash::Hasher::write(&mut hasher, p.as_slice());
    }
    std::hash::Hasher::finish(&hasher)
}

/// The character of a 6-bit value in the URL-safe base64 alphabet
/// (`A`-`Z`, `a`-`z`, `0`-`9`, `-`, `_`).
pub open spec fn b64url_char(v: int) -> char {
    if v < 26 {
        (65 + v) as char
    } else if v < 52 {
        (97 + v - 26) as char
    } else if v < 62 {
        (48 + v - 52) as char
    } else if v == 62 {
        '-'
    } else {
        '_'
    }
}

/// Unpadded URL-safe base64 (RFC 4648, section 5) of a byte string.
pub open spec fn b64url_nopad(b: Seq<u8>) -> Seq<char>
    decreases b.len(),
{
    if b.len() == 0 {
        Seq::empty()
    } else if b.len() == 1 {
        seq![b64url_char((b[0] as int) / 4), b64url_char(((b[0] as int) % 4) * 16)]
    } else if b.len() == 2 {
        seq![
            b64url_char((b[0] as int) / 4),
            b64url_char(((b[0] as int) % 4) * 16 + (b[1] as int) / 16),
            b64url_char(((b[1] as int) % 16) * 4),
        ]
    } else {
        seq![
            b64url_char((b[0] as int) / 4),
            b64url_char(((b[0] as int) % 4) * 16 + (b[1] as int) / 16),
            b64url_char(((b[1] as int) % 16) * 4 + (b[2] as int) / 64),
            b64url_char((b[2] as int) % 64),
        ] + b64url_nopad(b.skip(3))
    }
}

/// `base64::engine::general_purpose::URL_SAFE_NO_PAD.encode`: the contract states
/// the encoding that RFC 4648 (section 5, no padding) defines.
#[verifier::external_body]
fn base64_url_no_pad(bytes: &[u8]) -> (r: String)
    ensures
        r@ == b64url_nopad(bytes@),
{
    base64::Engine::encode(&base64::engine::general_purpose::URL_SAFE_NO_PAD, bytes)
}

// ---------------------------------------------------------------------------
// Hash string
// ---------------------------------------------------------------------------

/// The 8 little-endian bytes of a `u64`.
pub open spec fn le_bytes(h: u64) -> Seq<u8> {
    Seq::new(8, |i: int| ((h >> (8 * i) as u64) & 0xffu64) as u8)
}

/// `s` with every `-` and `_` replaced by `0`.
pub open spec fn sanitize_hash(s: Seq<char>) -> Seq<char> {
    s.map_values(|c: char| if c == '-' || c == '_' { '0' } else { c })
}

/// The hash text of a 64-bit hash value.
pub open spec fn hash_text(h: u64) -> Seq<char> {
    sanitize_hash(b64url_nopad(le_bytes(h)))
}

/// The byte strings written to the hasher for a segment.
pub open spec fn hash_writes(scope: Option<Seq<char>>, rel_path: Seq<char>, display_name: Seq<
    char,
>) -> Seq<Seq<u8>> {
    match scope {
        Some(s) => seq![
            vstd::utf8::encode_utf8(s),
            vstd::utf8::encode_utf8(rel_path),
            vstd::utf8::encode_utf8(display_name),
        ],
        None => seq![vstd::utf8::encode_utf8(rel_path), vstd::utf8::encode_utf8(display_name)],
    }
}

/// The segment hash of a scope, a relative path and a display name.
pub open spec fn segment_hash(scope: Option<Seq<char>>, rel_path: Seq<char>, display_name: Seq<
    char,
>) -> Seq<char> {
    hash_text(siphash13_zero_keys(hash_writes(scope, rel_path, display_name).flatten()))
}

/// The hash that an override gives: only the override's bytes are hashed.
pub open spec fn override_hash(hash_override: Seq<char>) -> Seq<char> {
    hash_text(siphash13_zero_keys(seq![vstd::utf8::encode_utf8(hash_override)].flatten()))
}

/// The hash of a segment, or of the override when there is one.
pub open spec fn segment_hash_with_override(
    scope: Option<Seq<char>>,
    rel_path: Seq<char>,
    display_name: Seq<char>,
    hash_override: Option<Seq<char>>,
) -> Seq<char> {
    match hash_override {
        Some(h) => override_hash(h),
        None => segment_hash(scope, rel_path, display_name),
    }
}

/// The text of an optional string slice.
pub open spec fn opt_view(o: Option<&str>) -> Option<Seq<char>> {
    match o {
        Some(s) => Some(s@),
        None => None,
    }
}

fn le_bytes_of(h: u64) -> (v: Vec<u8>)
    ensures
        v@ == le_bytes(h),
{
    let mut v: Vec<u8> = Vec::new();
    let mut i: u64 = 0;
    while i < 8
        invariant
            i <= 8,
            v@.len() == i,
            forall|k: int| 0 <= k < i ==> v@[k] == ((h >> (8 * k) as u64) & 0xffu64) as u8,
        decreases 8 - i,
    {
        v.push(((h >> (8 * i)) & 0xff) as u8);
        i += 1;
    }
    assert(v@ =~= le_bytes(h));
    v
}

fn sanitize(s: &str) -> (r: String)
    ensures
        r@ == sanitize_hash(s@),
{
    let v = chars_of(s);
    let mut r = String::new();
    let mut i: usize = 0;
    while i < v.len()
        invariant
            i <= v@.len(),
            v@ == s@,
            r@ == sanitize_hash(v@.take(i as int)),
        decreases v@.len() - i,
    {
        let c = v[i];
        push_char(&mut r, if c == '-' || c == '_' { '0' } else { c });
        assert(v@.take(i + 1) == v@.take(i as int).push(c));
        assert(sanitize_hash(v@.take(i + 1)) =~= sanitize_hash(v@.take(i as int)).push(
            if c == '-' || c == '_' { '0' } else { c },
        ));
        i += 1;
    }
    assert(v@.take(v@.len() as int) =~= v@);
    r
}

fn hash_of_writes(parts: &Vec<Vec<u8>>) -> (r: String)
    ensures
        r@ == hash_text(siphash13_zero_keys(parts@.map_values(|p: Vec<u8>| p@).flatten())),
{
    let h = siphash13_of_writes(parts);
    let bytes = le_bytes_of(h);
    let encoded = base64_url_no_pad(bytes.as_slice());
    sanitize(encoded.as_str())
}

/// Compute the 11-character segment hash.
pub fn compute_segment_hash(scope: Option<&str>, rel_path: &str, display_name: &str) -> (r: String)
    ensures
        r@ == segment_hash(opt_view(scope), rel_path@, display_name@),
{
    let mut parts: Vec<Vec<u8>> = Vec::new();
    match scope {
        Some(s) => parts.push(s.as_bytes_vec()),
        None => {},
    }
    parts.push(rel_path.as_bytes_vec());
    parts.push(display_name.as_bytes_vec());
    assert(parts@.map_values(|p: Vec<u8>| p@) =~= hash_writes(
        opt_view(scope),
        rel_path@,
        display_name@,
    ));
    hash_of_writes(&parts)
}

/// Compute the segment hash; with an override only the override's bytes are hashed.
pub fn compute_segment_hash_with_override(
    scope: Option<&str>,
    rel_path: &str,
    display_name: &str,
    hash_override: Option<&str>,
) -> (r: String)
    ensures
        r@ == segment_hash_with_override(
            opt_view(scope),
            rel_path@,
            display_name@,
            opt_view(hash_override),
        ),
{
    match hash_override {
        Some(h) => {
            let mut parts: Vec<Vec<u8>> = Vec::new();
            parts.push(h.as_bytes_vec());
            assert(parts@.map_values(|p: Vec<u8>| p@) =~= seq![vstd::utf8::encode_utf8(h@)]);
            hash_of_writes(&parts)
        },
        None => compute_segment_hash(scope, rel_path, display_name),
    }
}

/// The 2-character file hash prefix used for JSX dev keys: the first two
/// characters of the hash of `scope?` and `rel_path` alone.
pub fn compute_file_hash_prefix(scope: Option<&str>, rel_path: &str) -> (r: String)
    ensures
        r@ == ({
            let full = hash_text(
                siphash13_zero_keys(
                    match opt_view(scope) {
                        Some(s) => seq![
                            vstd::utf8::encode_utf8(s),
                            vstd::utf8::encode_utf8(rel_path@),
                        ],
                        None => seq![vstd::utf8::encode_utf8(rel_path@)],
                    }.flatten(),
                ),
            );
            full.take(2)
        }),
{
    let mut parts: Vec<Vec<u8>> = Vec::new();
    match scope {
        Some(s) => parts.push(s.as_bytes_vec()),
        None => {},
    }
    parts.push(rel_path.as_bytes_vec());
    let ghost writes = parts@.map_values(|p: Vec<u8>| p@);
    assert(writes =~= match opt_view(scope) {
        Some(s) => seq![vstd::utf8::encode_utf8(s), vstd::utf8::encode_utf8(rel_path@)],
        None => seq![vstd::utf8::encode_utf8(rel_path@)],
    });
    let full = hash_of_writes(&parts);
    proof {
        lemma_hash_text_shape(siphash13_zero_keys(writes.flatten()));
    }
    let v = chars_of(full.as_str());
    let mut r = String::new();
    push_chars(&mut r, &v, 0, 2);
    assert(v@.subrange(0, 2) =~= v@.take(2));
    r
}

// ---------------------------------------------------------------------------
// Laws of the hash text
// ---------------------------------------------------------------------------

proof fn lemma_b64url_char_alphabet(v: int)
    requires
        0 <= v < 64,
    ensures
        is_ascii_alnum(b64url_char(v)) || b64url_char(v) == '-' || b64url_char(v) == '_',
{
}

/// Law: every hash text is 11 characters long and made of ASCII letters and digits only.
pub proof fn lemma_hash_text_shape(h: u64)
    ensures
        hash_text(h).len() == 11,
        forall|i: int| 0 <= i < 11 ==> #[trigger] is_ascii_alnum(hash_text(h)[i]),
{
    let b = le_bytes(h);
    reveal_with_fuel(b64url_nopad, 4);
    assert(b.skip(3).skip(3).len() == 2);
    let e = b64url_nopad(b);
    assert(e.len() == 11);
    assert forall|i: int| 0 <= i < 11 implies #[trigger] is_ascii_alnum(hash_text(h)[i]) by {
        assert forall|j: int| 0 <= j < 11 implies is_ascii_alnum(#[trigger] e[j]) || e[j] == '-'
            || e[j] == '_' by {
            let b0 = b;
            let b1 = b.skip(3);
            let b2 = b1.skip(3);
            assert(b1.len() == 5 && b2.len() == 2);
            if j < 4 {
                lemma_b64url_char_alphabet((b0[0] as int) / 4);
                lemma_b64url_char_alphabet(((b0[0] as int) % 4) * 16 + (b0[1] as int) / 16);
                lemma_b64url_char_alphabet(((b0[1] as int) % 16) * 4 + (b0[2] as int) / 64);
                lemma_b64url_char_alphabet((b0[2] as int) % 64);
            } else if j < 8 {
                lemma_b64url_char_alphabet((b1[0] as int) / 4);
                lemma_b64url_char_alphabet(((b1[0] as int) % 4) * 16 + (b1[1] as int) / 16);
                lemma_b64url_char_alphabet(((b1[1] as int) % 16) * 4 + (b1[2] as int) / 64);
                lemma_b64url_char_alphabet((b1[2] as int) % 64);
            } else {
                lemma_b64url_char_alphabet((b2[0] as int) / 4);
                lemma_b64url_char_alphabet(((b2[0] as int) % 4) * 16 + (b2[1] as int) / 16);
                lemma_b64url_char_alphabet(((b2[1] as int) % 16) * 4);
            }
        }
        assert(is_ascii_alnum(e[i]) || e[i] == '-' || e[i] == '_');
    }
}

/// Law: a segment hash is 11 ASCII letters and digits, whatever the inputs.
pub proof fn lemma_segment_hash_shape(
    scope: Option<Seq<char>>,
    rel_path: Seq<char>,
    display_name: Seq<char>,
    hash_override: Option<Seq<char>>,
)
    ensures
        segment_hash_with_override(scope, rel_path, display_name, hash_override).len() == 11,
        forall|i: int|
            0 <= i < 11 ==> #[trigger] is_ascii_alnum(
                segment_hash_with_override(scope, rel_path, display_name, hash_override)[i],
            ),
{
    match hash_override {
        Some(h) => lemma_hash_text_shape(siphash13_zero_keys(seq![vstd::utf8::encode_utf8(h)].flatten())),
        None => lemma_hash_text_shape(
            siphash13_zero_keys(hash_writes(scope, rel_path, display_name).flatten()),
        ),
    }
}

/// Law: with an override, the hash depends on the override alone.
pub proof fn lemma_override_ignores_other_inputs(
    scope1: Option<Seq<char>>,
    rel_path1: Seq<char>,
    display_name1: Seq<char>,
    scope2: Option<Seq<char>>,
    rel_path2: Seq<char>,
    display_name2: Seq<char>,
    hash_override: Seq<char>,
)
    ensures
        segment_hash_with_override(scope1, rel_path1, display_name1, Some(hash_override))
            == segment_hash_with_override(scope2, rel_path2, display_name2, Some(hash_override)),
{
}


proof fn lemma_encode_utf8_concat(a: Seq<char>, b: Seq<char>)
    ensures
        vstd::utf8::encode_utf8(a + b) == vstd::utf8::encode_utf8(a) + vstd::utf8::encode_utf8(b),
    decreases a.len(),
{
    if a.len() == 0 {
        assert(a + b =~= b);
    } else {
        assert((a + b).drop_first() =~= a.drop_first() + b);
        lemma_encode_utf8_concat(a.drop_first(), b);
        assert((a + b)[0] == a[0]);
        assert(vstd::utf8::encode_utf8(a + b) =~= vstd::utf8::encode_scalar(a[0] as u32)
            + vstd::utf8::encode_utf8(a.drop_first()) + vstd::utf8::encode_utf8(b));
    }
}

/// Law: the hasher sees one byte stream, so where one input ends and the next
/// begins does not matter: hashing `scope` then `rel_path` equals hashing their
/// concatenation as the path, and hashing `rel_path` then `display_name` equals
/// hashing an empty path then their concatenation as the name.
pub proof fn lemma_segment_hash_of_concatenation(
    scope: Seq<char>,
    rel_path: Seq<char>,
    display_name: Seq<char>,
)
    ensures
        segment_hash(Some(scope), rel_path, display_name) == segment_hash(
            None,
            scope + rel_path,
            display_name,
        ),
        segment_hash(None, rel_path, display_name) == segment_hash(
            None,
            Seq::empty(),
            rel_path + display_name,
        ),
{
    let es = vstd::utf8::encode_utf8(scope);
    let er = vstd::utf8::encode_utf8(rel_path);
    let ed = vstd::utf8::encode_utf8(display_name);
    lemma_encode_utf8_concat(scope, rel_path);
    lemma_encode_utf8_concat(rel_path, display_name);
    assert(vstd::utf8::encode_utf8(Seq::<char>::empty()) =~= Seq::<u8>::empty());
    reveal_with_fuel(Seq::flatten, 4);
    assert(seq![es, er, ed].flatten() =~= es + er + ed);
    assert(seq![es + er, ed].flatten() =~= es + er + ed);
    assert(seq![er, ed].flatten() =~= er + ed);
    assert(seq![Seq::<u8>::empty(), er + ed].flatten() =~= er + ed);
}

// ---------------------------------------------------------------------------
// escape_sym
// ---------------------------------------------------------------------------

/// Step 1 of escaping: every character that is not an ASCII letter or digit becomes `_`.
pub open spec fn replace_non_alnum(s: Seq<char>) -> Seq<char> {
    s.map_values(|c: char| if is_ascii_alnum(c) { c } else { '_' })
}

/// Step 2: every `_` that follows a `_` is dropped.
pub open spec fn squash_underscores(s: Seq<char>) -> Seq<char>
    decreases s.len(),
{
    if s.len() == 0 {
        s
    } else if s.last() == '_' && s.len() >= 2 && s[s.len() - 2] == '_' {
        squash_underscores(s.drop_last())
    } else {
        squash_underscores(s.drop_last()).push(s.last())
    }
}

/// `s` without its leading `_` characters.
pub open spec fn trim_start_underscores(s: Seq<char>) -> Seq<char>
    decreases s.len(),
{
    if s.len() > 0 && s[0] == '_' {
        trim_start_underscores(s.drop_first())
    } else {
        s
    }
}

/// `s` without its trailing `_` characters.
pub open spec fn trim_end_underscores(s: Seq<char>) -> Seq<char>
    decreases s.len(),
{
    if s.len() > 0 && s.last() == '_' {
        trim_end_underscores(s.drop_last())
    } else {
        s
    }
}

/// Escape a string into an identifier fragment: replace non-alphanumerics by `_`,
/// squash runs of `_`, trim `_` at both ends, and prefix `_` when the result
/// starts with a digit.
pub open spec fn escape_sym_spec(s: Seq<char>) -> Seq<char> {
    let t = trim_end_underscores(trim_start_underscores(squash_underscores(replace_non_alnum(s))));
    if t.len() > 0 && is_ascii_digit(t[0]) {
        seq!['_'] + t
    } else {
        t
    }
}

/// Normalize a string to a valid identifier fragment.
pub fn escape_sym(s: &str) -> (r: String)
    ensures
        r@ == escape_sym_spec(s@),
{
    let v = chars_of(s);
    // Steps 1 and 2: replace and squash in one pass.
    let mut squashed: Vec<char> = Vec::new();
    let mut prev_underscore = false;
    let mut i: usize = 0;
    while i < v.len()
        invariant
            i <= v@.len(),
            v@ == s@,
            squashed@ == squash_underscores(replace_non_alnum(v@.take(i as int))),
            prev_underscore == (i > 0 && replace_non_alnum(v@)[i - 1] == '_'),
        decreases v@.len() - i,
    {
        let c = if ascii_alnum(v[i]) { v[i] } else { '_' };
        let ghost r_next = replace_non_alnum(v@.take(i + 1));
        assert(r_next.drop_last() =~= replace_non_alnum(v@.take(i as int)));
        assert(r_next.last() == c);
        assert(i > 0 ==> r_next[r_next.len() - 2] == replace_non_alnum(v@)[i - 1]);
        if c == '_' {
            if !prev_underscore {
                squashed.push(c);
            }
            prev_underscore = true;
        } else {
            squashed.push(c);
            prev_underscore = false;
        }
        i += 1;
    }
    assert(v@.take(v@.len() as int) =~= v@);
    // Step 3: trim.
    let n = squashed.len();
    let mut lo: usize = 0;
    assert(squashed@.subrange(0, n as int) =~= squashed@);
    while lo < n && squashed[lo] == '_'
        invariant
            lo <= n == squashed@.len(),
            trim_start_underscores(squashed@) == trim_start_underscores(
                squashed@.subrange(lo as int, n as int),
            ),
        decreases n - lo,
    {
        assert(squashed@.subrange(lo as int, n as int).drop_first() =~= squashed@.subrange(
            lo + 1,
            n as int,
        ));
        lo += 1;
    }
    let ghost ts = squashed@.subrange(lo as int, n as int);
    assert(trim_start_underscores(ts) == ts);
    let mut hi: usize = n;
    while hi > lo && squashed[hi - 1] == '_'
        invariant
            lo <= hi <= n == squashed@.len(),
            ts == squashed@.subrange(lo as int, n as int),
            trim_end_underscores(ts) == trim_end_underscores(
                squashed@.subrange(lo as int, hi as int),
            ),
        decreases hi - lo,
    {
        assert(squashed@.subrange(lo as int, hi as int).drop_last() =~= squashed@.subrange(
            lo as int,
            hi - 1,
        ));
        hi -= 1;
    }
    let ghost t = squashed@.subrange(lo as int, hi as int);
    assert(trim_end_underscores(t) == t);
    // Step 4: digit prefix guard.
    let mut r = String::new();
    if hi > lo && ascii_digit(squashed[lo]) {
        push_char(&mut r, '_');
    }
    push_chars(&mut r, &squashed, lo, hi);
    assert(r@ =~= escape_sym_spec(s@));
    r
}

/// Law: an escaped symbol is made of ASCII letters, digits and `_` only.
pub proof fn lemma_escape_sym_charset(s: Seq<char>)
    ensures
        forall|i: int|
            0 <= i < escape_sym_spec(s).len() ==> is_ascii_alnum(#[trigger] escape_sym_spec(s)[i])
                || escape_sym_spec(s)[i] == '_',
{
    let r = replace_non_alnum(s);
    assert forall|i: int| 0 <= i < r.len() implies is_ascii_alnum(#[trigger] r[i]) || r[i]
        == '_' by {}
    lemma_squash_keeps_charset(r);
    let q = squash_underscores(r);
    lemma_trim_start_is_suffix(q);
    let a = trim_start_underscores(q);
    lemma_trim_end_is_prefix(a);
}

proof fn lemma_squash_keeps_charset(s: Seq<char>)
    requires
        forall|i: int| 0 <= i < s.len() ==> is_ascii_alnum(#[trigger] s[i]) || s[i] == '_',
    ensures
        forall|i: int|
            0 <= i < squash_underscores(s).len() ==> is_ascii_alnum(
                #[trigger] squash_underscores(s)[i],
            ) || squash_underscores(s)[i] == '_',
    decreases s.len(),
{
    if s.len() > 0 {
        assert forall|i: int| 0 <= i < s.drop_last().len() implies is_ascii_alnum(
            #[trigger] s.drop_last()[i],
        ) || s.drop_last()[i] == '_' by {
            assert(s.drop_last()[i] == s[i]);
        }
        lemma_squash_keeps_charset(s.drop_last());
        assert(is_ascii_alnum(s[s.len() - 1]) || s[s.len() - 1] == '_');
        let q = squash_underscores(s.drop_last());
        if !(s.last() == '_' && s.len() >= 2 && s[s.len() - 2] == '_') {
            assert forall|i: int| 0 <= i < q.push(s.last()).len() implies is_ascii_alnum(
                #[trigger] q.push(s.last())[i],
            ) || q.push(s.last())[i] == '_' by {
                if i < q.len() {
                    assert(q.push(s.last())[i] == q[i]);
                }
            }
        }
    }
}

proof fn lemma_trim_start_is_suffix(s: Seq<char>)
    ensures
        exists|k: int| 0 <= k <= s.len() && trim_start_underscores(s) == s.subrange(k, s.len() as int),
    decreases s.len(),
{
    if s.len() > 0 && s[0] == '_' {
        lemma_trim_start_is_suffix(s.drop_first());
        let k = choose|k: int|
            0 <= k <= s.drop_first().len() && trim_start_underscores(s.drop_first())
                == s.drop_first().subrange(k, s.drop_first().len() as int);
        assert(s.drop_first().subrange(k, s.drop_first().len() as int) =~= s.subrange(
            k + 1,
            s.len() as int,
        ));
    } else {
        assert(s.subrange(0, s.len() as int) =~= s);
    }
}

proof fn lemma_trim_end_is_prefix(s: Seq<char>)
    ensures
        exists|k: int| 0 <= k <= s.len() && trim_end_underscores(s) == s.subrange(0, k),
    decreases s.len(),
{
    if s.len() > 0 && s.last() == '_' {
        lemma_trim_end_is_prefix(s.drop_last());
        let k = choose|k: int|
            0 <= k <= s.drop_last().len() && trim_end_underscores(s.drop_last())
                == s.drop_last().subrange(0, k);
        assert(s.drop_last().subrange(0, k) =~= s.subrange(0, k));
    } else {
        assert(s.subrange(0, s.len() as int) =~= s);
    }
}

/// No two `_` stand next to each other in `s`.
pub open spec fn no_double_underscore(s: Seq<char>) -> bool {
    forall|i: int| 0 <= i < s.len() - 1 ==> !(#[trigger] s[i] == '_' && s[i + 1] == '_')
}

/// Every character of `s` is an ASCII letter, digit or `_`.
pub open spec fn ident_fragment_chars(s: Seq<char>) -> bool {
    forall|i: int| 0 <= i < s.len() ==> is_ascii_alnum(#[trigger] s[i]) || s[i] == '_'
}

/// Some character of `s` is an ASCII letter or digit.
pub open spec fn has_ascii_alnum(s: Seq<char>) -> bool {
    exists|i: int| 0 <= i < s.len() && is_ascii_alnum(#[trigger] s[i])
}

/// The trimmed, squashed text that escaping builds before the digit prefix.
pub open spec fn escape_core(s: Seq<char>) -> Seq<char> {
    trim_end_underscores(trim_start_underscores(squash_underscores(replace_non_alnum(s))))
}

proof fn lemma_squash_last(s: Seq<char>)
    requires
        s.len() > 0,
    ensures
        squash_underscores(s).len() > 0,
        squash_underscores(s).last() == s.last(),
    decreases s.len(),
{
    if s.last() == '_' && s.len() >= 2 && s[s.len() - 2] == '_' {
        lemma_squash_last(s.drop_last());
    }
}

proof fn lemma_squash_no_double(s: Seq<char>)
    ensures
        no_double_underscore(squash_underscores(s)),
    decreases s.len(),
{
    if s.len() > 0 {
        lemma_squash_no_double(s.drop_last());
        let q = squash_underscores(s.drop_last());
        if !(s.last() == '_' && s.len() >= 2 && s[s.len() - 2] == '_') {
            if s.len() >= 2 {
                lemma_squash_last(s.drop_last());
            }
            let p = q.push(s.last());
            assert forall|i: int| 0 <= i < p.len() - 1 implies !(#[trigger] p[i] == '_' && p[i
                + 1] == '_') by {
                if i < q.len() - 1 {
                    assert(p[i] == q[i] && p[i + 1] == q[i + 1]);
                }
            }
        }
    }
}

proof fn lemma_squash_identity(s: Seq<char>)
    requires
        no_double_underscore(s),
    ensures
        squash_underscores(s) == s,
    decreases s.len(),
{
    if s.len() > 0 {
        assert(no_double_underscore(s.drop_last())) by {
            assert forall|i: int| 0 <= i < s.drop_last().len() - 1 implies !(
            #[trigger] s.drop_last()[i] == '_' && s.drop_last()[i + 1] == '_') by {
                assert(s.drop_last()[i] == s[i] && s.drop_last()[i + 1] == s[i + 1]);
            }
        }
        lemma_squash_identity(s.drop_last());
        if s.len() >= 2 {
            assert(!(s[s.len() - 2] == '_' && s[s.len() - 1] == '_'));
        }
        assert(s.drop_last().push(s.last()) =~= s);
    }
}

proof fn lemma_squash_keeps_alnum(s: Seq<char>)
    ensures
        has_ascii_alnum(squash_underscores(s)) == has_ascii_alnum(s),
    decreases s.len(),
{
    if s.len() > 0 {
        lemma_squash_keeps_alnum(s.drop_last());
        let q = squash_underscores(s.drop_last());
        if has_ascii_alnum(s) {
            let i = choose|i: int| 0 <= i < s.len() && is_ascii_alnum(#[trigger] s[i]);
            if i < s.len() - 1 {
                assert(is_ascii_alnum(s.drop_last()[i]));
            }
        }
        if has_ascii_alnum(s.drop_last()) {
            let i = choose|i: int| 0 <= i < s.drop_last().len() && is_ascii_alnum(
                #[trigger] s.drop_last()[i],
            );
            assert(is_ascii_alnum(s[i]));
        }
        if s.last() == '_' && s.len() >= 2 && s[s.len() - 2] == '_' {
            assert(!is_ascii_alnum(s.last()));
            if has_ascii_alnum(s) {
                let i = choose|i: int| 0 <= i < s.len() && is_ascii_alnum(#[trigger] s[i]);
                assert(i < s.len() - 1);
                assert(is_ascii_alnum(s.drop_last()[i]));
            }
        } else {
            let p = q.push(s.last());
            if has_ascii_alnum(p) {
                let i = choose|i: int| 0 <= i < p.len() && is_ascii_alnum(#[trigger] p[i]);
                if i < q.len() {
                    assert(is_ascii_alnum(q[i]));
                } else {
                    assert(is_ascii_alnum(s[s.len() - 1]));
                }
            }
            if has_ascii_alnum(q) {
                let i = choose|i: int| 0 <= i < q.len() && is_ascii_alnum(#[trigger] q[i]);
                assert(is_ascii_alnum(p[i]));
            }
            if is_ascii_alnum(s.last()) {
                assert(is_ascii_alnum(p[p.len() - 1]));
            }
        }
    }
}

proof fn lemma_trim_start_props(s: Seq<char>)
    ensures
        trim_start_underscores(s).len() > 0 ==> trim_start_underscores(s)[0] != '_',
        has_ascii_alnum(trim_start_underscores(s)) == has_ascii_alnum(s),
        ident_fragment_chars(s) ==> ident_fragment_chars(trim_start_underscores(s)),
        no_double_underscore(s) ==> no_double_underscore(trim_start_underscores(s)),
    decreases s.len(),
{
    if s.len() > 0 && s[0] == '_' {
        let d = s.drop_first();
        lemma_trim_start_props(d);
        if has_ascii_alnum(s) {
            let i = choose|i: int| 0 <= i < s.len() && is_ascii_alnum(#[trigger] s[i]);
            assert(i > 0);
            assert(is_ascii_alnum(d[i - 1]));
        }
        if has_ascii_alnum(d) {
            let i = choose|i: int| 0 <= i < d.len() && is_ascii_alnum(#[trigger] d[i]);
            assert(is_ascii_alnum(s[i + 1]));
        }
        if ident_fragment_chars(s) {
            assert forall|i: int| 0 <= i < d.len() implies is_ascii_alnum(#[trigger] d[i]) || d[i]
                == '_' by {
                assert(d[i] == s[i + 1]);
            }
        }
        if no_double_underscore(s) {
            assert forall|i: int| 0 <= i < d.len() - 1 implies !(#[trigger] d[i] == '_' && d[i + 1]
                == '_') by {
                assert(d[i] == s[i + 1] && d[i + 1] == s[i + 2]);
            }
        }
    }
}

proof fn lemma_trim_end_props(s: Seq<char>)
    ensures
        trim_end_underscores(s).len() > 0 ==> trim_end_underscores(s).last() != '_',
        trim_end_underscores(s).len() > 0 && s.len() > 0 ==> trim_end_underscores(s)[0] == s[0],
        has_ascii_alnum(trim_end_underscores(s)) == has_ascii_alnum(s),
        ident_fragment_chars(s) ==> ident_fragment_chars(trim_end_underscores(s)),
        no_double_underscore(s) ==> no_double_underscore(trim_end_underscores(s)),
    decreases s.len(),
{
    if s.len() > 0 && s.last() == '_' {
        let d = s.drop_last();
        lemma_trim_end_props(d);
        if trim_end_underscores(s).len() > 0 {
            assert(d.len() > 0);
            assert(d[0] == s[0]);
        }
        if has_ascii_alnum(s) {
            let i = choose|i: int| 0 <= i < s.len() && is_ascii_alnum(#[trigger] s[i]);
            assert(i < s.len() - 1);
            assert(is_ascii_alnum(d[i]));
        }
        if has_ascii_alnum(d) {
            let i = choose|i: int| 0 <= i < d.len() && is_ascii_alnum(#[trigger] d[i]);
            assert(is_ascii_alnum(s[i]));
        }
        if ident_fragment_chars(s) {
            assert forall|i: int| 0 <= i < d.len() implies is_ascii_alnum(#[trigger] d[i]) || d[i]
                == '_' by {
                assert(d[i] == s[i]);
            }
        }
        if no_double_underscore(s) {
            assert forall|i: int| 0 <= i < d.len() - 1 implies !(#[trigger] d[i] == '_' && d[i + 1]
                == '_') by {
                assert(d[i] == s[i] && d[i + 1] == s[i + 1]);
            }
        }
    }
}

proof fn lemma_escape_core_props(s: Seq<char>)
    ensures
        ident_fragment_chars(escape_core(s)),
        no_double_underscore(escape_core(s)),
        escape_core(s).len() > 0 ==> escape_core(s)[0] != '_' && escape_core(s).last() != '_',
        escape_core(s).len() > 0 <==> has_ascii_alnum(s),
{
    let r = replace_non_alnum(s);
    assert(ident_fragment_chars(r));
    assert(has_ascii_alnum(r) == has_ascii_alnum(s)) by {
        if has_ascii_alnum(s) {
            let i = choose|i: int| 0 <= i < s.len() && is_ascii_alnum(#[trigger] s[i]);
            assert(is_ascii_alnum(r[i]));
        }
        if has_ascii_alnum(r) {
            let i = choose|i: int| 0 <= i < r.len() && is_ascii_alnum(#[trigger] r[i]);
            assert(is_ascii_alnum(s[i]));
        }
    }
    lemma_squash_keeps_charset(r);
    lemma_squash_no_double(r);
    lemma_squash_keeps_alnum(r);
    let q = squash_underscores(r);
    lemma_trim_start_props(q);
    let a = trim_start_underscores(q);
    lemma_trim_end_props(a);
    let t = trim_end_underscores(a);
    if t.len() > 0 {
        let i = choose|i: int| 0 <= i < t.len() && is_ascii_alnum(#[trigger] t[i]);
    }
    if has_ascii_alnum(t) {
        let i = choose|i: int| 0 <= i < t.len() && is_ascii_alnum(#[trigger] t[i]);
    }
}

/// Law: an escaped symbol is a clean identifier fragment. It holds only ASCII
/// letters, digits and `_`; no two `_` are adjacent; it does not end with `_`;
/// it starts with `_` only to guard a leading digit; it is empty exactly when
/// the input holds no ASCII letter or digit; and escaping it again changes
/// nothing.
pub proof fn lemma_escape_sym_normal_form(s: Seq<char>)
    ensures
        ident_fragment_chars(escape_sym_spec(s)),
        no_double_underscore(escape_sym_spec(s)),
        escape_sym_spec(s).len() > 0 ==> escape_sym_spec(s).last() != '_',
        escape_sym_spec(s).len() > 0 && escape_sym_spec(s)[0] == '_' ==> escape_sym_spec(s).len()
            > 1 && is_ascii_digit(escape_sym_spec(s)[1]),
        escape_sym_spec(s).len() == 0 <==> !has_ascii_alnum(s),
        escape_sym_spec(escape_sym_spec(s)) == escape_sym_spec(s),
{
    lemma_escape_core_props(s);
    let t = escape_core(s);
    let r = escape_sym_spec(s);
    if t.len() > 0 && is_ascii_digit(t[0]) {
        assert(r == seq!['_'] + t);
        assert(!is_ascii_digit('_'));
        assert forall|i: int| 0 <= i < r.len() implies is_ascii_alnum(#[trigger] r[i]) || r[i]
            == '_' by {
            if i > 0 {
                assert(r[i] == t[i - 1]);
            }
        }
        assert forall|i: int| 0 <= i < r.len() - 1 implies !(#[trigger] r[i] == '_' && r[i + 1]
            == '_') by {
            if i > 0 {
                assert(r[i] == t[i - 1] && r[i + 1] == t[i]);
            } else {
                assert(r[1] == t[0]);
            }
        }
        assert(r.last() == t.last());
        assert(r[1] == t[0]);
    } else {
        assert(r == t);
    }
    // Escaping the result again.
    assert(replace_non_alnum(r) =~= r);
    lemma_squash_identity(r);
    if t.len() > 0 && is_ascii_digit(t[0]) {
        assert(r.drop_first() =~= t);
        assert(trim_start_underscores(r) == trim_start_underscores(t));
        assert(trim_start_underscores(t) == t);
    } else {
        assert(trim_start_underscores(r) == r);
    }
    if t.len() > 0 {
        assert(trim_end_underscores(t) == t);
    } else {
        assert(t =~= Seq::<char>::empty());
    }
    assert(escape_core(r) == t);
}

// ---------------------------------------------------------------------------
// get_canonical_filename / parse_symbol_name
// ---------------------------------------------------------------------------

/// The canonical filename: the display name, `_`, and the hash suffix of the
/// symbol (its last `_`-separated part).
pub open spec fn canonical_filename_of(display_name: Seq<char>, symbol_name: Seq<char>) -> Seq<
    char,
> {
    display_name + seq!['_'] + after_last(symbol_name, '_')
}

/// Derive the canonical filename from a display name and a symbol name.
pub fn get_canonical_filename(display_name: &str, symbol_name: &str) -> (r: String)
    ensures
        r@ == canonical_filename_of(display_name@, symbol_name@),
{
    let v = chars_of(symbol_name);
    let start = last_underscore_end(&v);
    let mut r = String::from_str(display_name);
    push_char(&mut r, '_');
    push_chars(&mut r, &v, start, v.len());
    r
}

/// The index just after the last `_` of `v` (0 when there is none).
fn last_underscore_end(v: &[char]) -> (i: usize)
    ensures
        i <= v@.len(),
        v@.subrange(i as int, v@.len() as int) == after_last(v@, '_'),
        i > 0 ==> v@[i - 1] == '_' && before_last(v@, '_') is Some && v@.subrange(0, i - 1)
            == before_last(v@, '_')->0,
        i == 0 ==> before_last(v@, '_') is None,
{
    let mut i = v.len();
    assert(v@.subrange(0, v@.len() as int) =~= v@);
    assert(v@.subrange(v@.len() as int, v@.len() as int) =~= Seq::<char>::empty());
    assert(after_last(v@, '_') =~= after_last(v@, '_') + Seq::<char>::empty());
    while i > 0
        invariant
            i <= v@.len(),
            after_last(v@, '_') == after_last(v@.subrange(0, i as int), '_') + v@.subrange(
                i as int,
                v@.len() as int,
            ),
            before_last(v@, '_') == before_last(v@.subrange(0, i as int), '_'),
        decreases i,
    {
        let ghost pre = v@.subrange(0, i as int);
        assert(pre.drop_last() == v@.subrange(0, i - 1));
        if v[i - 1] == '_' {
            assert(v@.subrange(i as int, v@.len() as int) =~= Seq::<char>::empty()
                + v@.subrange(i as int, v@.len() as int));
            return i;
        }
        assert(v@.subrange(i - 1, v@.len() as int) =~= seq![v@[i - 1]] + v@.subrange(
            i as int,
            v@.len() as int,
        ));
        i -= 1;
    }
    assert(v@.subrange(0, 0) =~= Seq::<char>::empty());
    0
}

/// The part of `s` before its last `c`, or `None` when `c` does not occur
/// (the first half of `s.rsplit_once(c)`).
pub open spec fn before_last(s: Seq<char>, c: char) -> Option<Seq<char>>
    decreases s.len(),
{
    if s.len() == 0 {
        None
    } else if s.last() == c {
        Some(s.drop_last())
    } else {
        before_last(s.drop_last(), c)
    }
}

/// The `(symbol name, display name, hash)` that `parse_symbol_name` gives.
pub open spec fn parse_symbol_name_spec(symbol_name: Seq<char>, mode: EmitMode, file_name: Seq<
    char,
>) -> (Seq<char>, Seq<char>, Seq<char>) {
    let (prefix, hash) = match before_last(symbol_name, '_') {
        Some(p) => (p, after_last(symbol_name, '_')),
        None => (symbol_name, Seq::empty()),
    };
    let new_symbol = if mode == EmitMode::Prod {
        seq!['s', '_'] + hash
    } else {
        symbol_name
    };
    (new_symbol, file_name + seq!['_'] + prefix, hash)
}

/// Split an existing symbol name at its last `_` into prefix and hash, and give
/// the symbol name for `mode` (`s_{hash}` in Prod), the display name
/// `{file_name}_{prefix}`, and the hash.
pub fn parse_symbol_name(symbol_name: &str, mode: &EmitMode, file_name: &str) -> (r: (
    String,
    String,
    String,
))
    ensures
        (r.0@, r.1@, r.2@) == parse_symbol_name_spec(symbol_name@, *mode, file_name@),
{
    let v = chars_of(symbol_name);
    let start = last_underscore_end(&v);
    let (prefix_end, hash_start) = if start > 0 {
        (start - 1, start)
    } else {
        (v.len(), v.len())
    };
    proof {
        if start == 0 {
            assert(v@.subrange(0, v@.len() as int) =~= v@);
            assert(v@.subrange(v@.len() as int, v@.len() as int) =~= Seq::<char>::empty());
        }
    }
    let mut display = String::from_str(file_name);
    push_char(&mut display, '_');
    push_chars(&mut display, &v, 0, prefix_end);
    let mut hash = String::new();
    push_chars(&mut hash, &v, hash_start, v.len());
    let new_symbol = match mode {
        EmitMode::Prod => {
            let mut s = String::new();
            push_char(&mut s, 's');
            push_char(&mut s, '_');
            s.append(hash.as_str());
            s
        },
        _ => String::from_str(symbol_name),
    };
    assert(display@ =~= parse_symbol_name_spec(symbol_name@, *mode, file_name@).1);
    assert(new_symbol@ =~= parse_symbol_name_spec(symbol_name@, *mode, file_name@).0);
    (new_symbol, display, hash)
}


proof fn lemma_split_at_last_separator(p: Seq<char>, h: Seq<char>, c: char)
    requires
        forall|i: int| 0 <= i < h.len() ==> #[trigger] h[i] != c,
    ensures
        before_last(p + seq![c] + h, c) == Some(p),
        after_last(p + seq![c] + h, c) == h,
    decreases h.len(),
{
    let s = p + seq![c] + h;
    if h.len() == 0 {
        assert(s.drop_last() =~= p);
        assert(after_last(s, c) =~= h);
    } else {
        assert forall|i: int| 0 <= i < h.drop_last().len() implies #[trigger] h.drop_last()[i]
            != c by {
            assert(h.drop_last()[i] == h[i]);
        }
        lemma_split_at_last_separator(p, h.drop_last(), c);
        assert(s.drop_last() =~= p + seq![c] + h.drop_last());
        assert(s.last() == h.last());
        assert(h.drop_last().push(h.last()) =~= h);
    }
}

/// Law: outside Prod, parsing the symbol name that the naming pipeline gives
/// returns that symbol name, the display name `{file_name}_{core}` and the
/// hash, for every core and for every hash the pipeline can compute.
pub proof fn lemma_parse_inverts_symbol_name(
    core: Seq<char>,
    scope: Option<Seq<char>>,
    rel_path: Seq<char>,
    display_name: Seq<char>,
    hash_override: Option<Seq<char>>,
    mode: EmitMode,
    file_name: Seq<char>,
)
    requires
        mode != EmitMode::Prod,
    ensures
        ({
            let hash = segment_hash_with_override(scope, rel_path, display_name, hash_override);
            parse_symbol_name_spec(symbol_name_of(mode, core, hash), mode, file_name) == (
                symbol_name_of(mode, core, hash),
                file_name + seq!['_'] + core,
                hash,
            )
        }),
{
    let hash = segment_hash_with_override(scope, rel_path, display_name, hash_override);
    lemma_segment_hash_shape(scope, rel_path, display_name, hash_override);
    assert forall|i: int| 0 <= i < hash.len() implies #[trigger] hash[i] != '_' by {
        assert(is_ascii_alnum(hash[i]));
    }
    lemma_split_at_last_separator(core, hash, '_');
}

// ---------------------------------------------------------------------------
// register_context_name
// ---------------------------------------------------------------------------

/// Collision counters of segment names, keyed by escaped base name.
pub type SegmentNames = vstd::hash_map::StringHashMap<u32>;

/// Result of the naming pipeline.
#[derive(Debug, Clone, PartialEq, Eq)]
pub struct ContextNameResult {
    /// Symbol name used in generated code: `s_{hash}` in Prod, else `{core}_{hash}`.
    pub symbol_name: String,
    /// Display name: `{file_name}_{core}`.
    pub display_name: String,
    /// 11-character hash.
    pub hash: String,
    /// Canonical filename: `{display_name}_{hash}`.
    pub canonical_filename: String,
}

/// The parts joined with `_` between them.
pub open spec fn join_underscore(parts: Seq<Seq<char>>) -> Seq<char>
    decreases parts.len(),
{
    if parts.len() == 0 {
        Seq::empty()
    } else if parts.len() == 1 {
        parts[0]
    } else {
        join_underscore(parts.drop_last()) + seq!['_'] + parts.last()
    }
}

/// The display name core for a base name seen `count` times before:
/// the base itself the first time, `{base}_{count}` afterwards.
pub open spec fn display_core(base: Seq<char>, count: nat) -> Seq<char> {
    if count == 0 {
        base
    } else {
        base + seq!['_'] + decimal(count)
    }
}

/// The symbol name of a segment.
pub open spec fn symbol_name_of(mode: EmitMode, core: Seq<char>, hash: Seq<char>) -> Seq<char> {
    if mode == EmitMode::Prod {
        seq!['s', '_'] + hash
    } else {
        core + seq!['_'] + hash
    }
}

/// The escaped base name of a context stack.
pub open spec fn base_name_of(stack_ctxt: Seq<String>) -> Seq<char> {
    escape_sym_spec(join_underscore(stack_ctxt.map_values(|s: String| s@)))
}

/// The count that the collision counter holds for `key` (0 when absent).
pub open spec fn count_of(names: Map<Seq<char>, u32>, key: Seq<char>) -> nat {
    if names.contains_key(key) {
        names[key] as nat
    } else {
        0
    }
}

fn join_with_underscore(parts: &[String]) -> (r: String)
    ensures
        r@ == join_underscore(parts@.map_values(|s: String| s@)),
{
    let ghost views = parts@.map_values(|s: String| s@);
    let mut r = String::new();
    let mut i: usize = 0;
    while i < parts.len()
        invariant
            i <= parts@.len(),
            views == parts@.map_values(|s: String| s@),
            r@ == join_underscore(views.take(i as int)),
        decreases parts@.len() - i,
    {
        assert(views.take(i + 1).drop_last() =~= views.take(i as int));
        assert(views.take(i + 1).last() == parts@[i as int]@);
        if i > 0 {
            push_char(&mut r, '_');
        } else {
            assert(views.take(0) =~= Seq::<Seq<char>>::empty());
        }
        r.append(parts[i].as_str());
        i += 1;
    }
    assert(views.take(parts@.len() as int) =~= views);
    r
}

/// The naming pipeline for a segment.
///
/// With a custom symbol, its name is used as the core directly and the
/// collision counters are untouched. Otherwise the stack of enclosing names is
/// joined with `_` and escaped into a base name, whose collision counter gives
/// the core (`base`, then `base_1`, `base_2`, ...) and is incremented. The hash
/// is computed from the core (or the display name override, or the hash
/// override alone), and the symbol, display and canonical names are derived.
pub fn register_context_name(
    stack_ctxt: &[String],
    segment_names: &mut SegmentNames,
    scope: Option<&str>,
    rel_path: &str,
    file_name: &str,
    mode: &EmitMode,
    custom_symbol: Option<&str>,
    display_name_override: Option<&str>,
    hash_override: Option<&str>,
) -> (r: ContextNameResult)
    requires
        custom_symbol is None ==> count_of(old(segment_names)@, base_name_of(stack_ctxt@))
            < u32::MAX,
    ensures
        match custom_symbol {
            Some(sym) => {
                &&& final(segment_names)@ == old(segment_names)@
                &&& r.hash@ == segment_hash_with_override(
                    opt_view(scope),
                    rel_path@,
                    sym@,
                    opt_view(hash_override),
                )
                &&& r.symbol_name@ == symbol_name_of(*mode, sym@, r.hash@)
                &&& r.display_name@ == file_name@ + seq!['_'] + sym@
            },
            None => {
                let base = base_name_of(stack_ctxt@);
                let count = count_of(old(segment_names)@, base);
                let core = display_core(base, count);
                &&& final(segment_names)@ == old(segment_names)@.insert(base, (count + 1) as u32)
                &&& r.hash@ == segment_hash_with_override(
                    opt_view(scope),
                    rel_path@,
                    match display_name_override {
                        Some(d) => d@,
                        None => core,
                    },
                    opt_view(hash_override),
                )
                &&& r.symbol_name@ == symbol_name_of(*mode, core, r.hash@)
                &&& r.display_name@ == file_name@ + seq!['_'] + core
            },
        },
        r.canonical_filename@ == canonical_filename_of(r.display_name@, r.symbol_name@),
{
    // Step 1: custom symbol short-circuit.
    if let Some(sym) = custom_symbol {
        let hash = compute_segment_hash_with_override(scope, rel_path, sym, hash_override);
        let symbol_name = match mode {
            EmitMode::Prod => {
                let mut s = String::new();
                push_char(&mut s, 's');
                push_char(&mut s, '_');
                s.append(hash.as_str());
                s
            },
            _ => {
                let mut s = String::from_str(sym);
                push_char(&mut s, '_');
                s.append(hash.as_str());
                s
            },
        };
        let mut display_name = String::from_str(file_name);
        push_char(&mut display_name, '_');
        display_name.append(sym);
        let canonical_filename = get_canonical_filename(
            display_name.as_str(),
            symbol_name.as_str(),
        );
        assert(symbol_name@ =~= symbol_name_of(*mode, sym@, hash@));
        return ContextNameResult { symbol_name, display_name, hash, canonical_filename };
    }
    // Step 1b: join the context stack and escape it.

    let joined = join_with_underscore(stack_ctxt);
    let base_core = escape_sym(joined.as_str());
    // Step 2: collision counter (first: none, second: _1, third: _2).
    let counter: u32 = match segment_names.get(base_core.as_str()) {
        Some(c) => *c,
        None => 0,
    };
    let display_name_core = if counter == 0 {
        base_core.clone()
    } else {
        let mut s = base_core.clone();
        push_char(&mut s, '_');
        let digits = decimal_string(counter as u64);
        s.append(digits.as_str());
        s
    };
    assert(base_core@ == base_name_of(stack_ctxt@));
    assert(counter == count_of(old(segment_names)@, base_core@));
    assert(display_name_core@ =~= display_core(base_core@, counter as nat));
    segment_names.insert(base_core.clone(), counter + 1);
    // Step 3: hash.
    let hash = match display_name_override {
        Some(d) => compute_segment_hash_with_override(scope, rel_path, d, hash_override),
        None => compute_segment_hash_with_override(
            scope,
            rel_path,
            display_name_core.as_str(),
            hash_override,
        ),
    };
    // Step 4: symbol name.
    let symbol_name = match mode {
        EmitMode::Prod => {
            let mut s = String::new();
            push_char(&mut s, 's');
            push_char(&mut s, '_');
            s.append(hash.as_str());
            s
        },
        _ => {
            let mut s = display_name_core.clone();
            push_char(&mut s, '_');
            s.append(hash.as_str());
            s
        },
    };
    // Step 5: display name (the file name is used raw).
    let mut display_name = String::from_str(file_name);
    push_char(&mut display_name, '_');
    display_name.append(display_name_core.as_str());
    // Step 6: canonical filename.
    let canonical_filename = get_canonical_filename(display_name.as_str(), symbol_name.as_str());
    assert(symbol_name@ =~= symbol_name_of(*mode, display_name_core@, hash@));
    assert(display_name@ =~= file_name@ + seq!['_'] + display_name_core@);
    ContextNameResult { symbol_name, display_name, hash, canonical_filename }
}

/// `after_last` of a text that ends with `_` and a part without `_` is that part.
proof fn lemma_after_last_of_suffix(prefix: Seq<char>, tail: Seq<char>)
    requires
        forall|i: int| 0 <= i < tail.len() ==> tail[i] != '_',
    ensures
        after_last(prefix + seq!['_'] + tail, '_') == tail,
    decreases tail.len(),
{
    let s = prefix + seq!['_'] + tail;
    if tail.len() == 0 {
        assert(s.last() == '_');
    } else {
        assert(s.drop_last() =~= prefix + seq!['_'] + tail.drop_last());
        lemma_after_last_of_suffix(prefix, tail.drop_last());
        assert(tail.drop_last().push(tail.last()) =~= tail);
    }
}

/// Law: a segment's canonical filename is its display name, `_`, and its hash.
pub proof fn lemma_canonical_filename_is_display_name_and_hash(
    mode: EmitMode,
    core: Seq<char>,
    display_name: Seq<char>,
    scope: Option<Seq<char>>,
    rel_path: Seq<char>,
    hash_input: Seq<char>,
    hash_override: Option<Seq<char>>,
)
    ensures
        ({
            let hash = segment_hash_with_override(scope, rel_path, hash_input, hash_override);
            canonical_filename_of(display_name, symbol_name_of(mode, core, hash)) == display_name
                + seq!['_'] + hash
        }),
{
    let hash = segment_hash_with_override(scope, rel_path, hash_input, hash_override);
    lemma_segment_hash_shape(scope, rel_path, hash_input, hash_override);
    assert forall|i: int| 0 <= i < hash.len() implies hash[i] != '_' by {
        assert(is_ascii_alnum(hash[i]));
    }
    if mode == EmitMode::Prod {
        assert(seq!['s', '_'] + hash =~= seq!['s'] + seq!['_'] + hash);
        lemma_after_last_of_suffix(seq!['s'], hash);
    } else {
        lemma_after_last_of_suffix(core, hash);
    }
}

/// Law: registering the same context stack again yields the next collision
/// suffix: the first registration has the base name as its core, the n-th
/// (n > 1) the base name followed by `_{n-1}`.
pub proof fn lemma_collision_counter_advances(names: Map<Seq<char>, u32>, base: Seq<char>)
    requires
        count_of(names, base) < u32::MAX,
    ensures
        count_of(names.insert(base, (count_of(names, base) + 1) as u32), base) == count_of(
            names,
            base,
        ) + 1,
        count_of(names, base) == 0 ==> display_core(base, count_of(names, base)) == base,
        count_of(names, base) > 0 ==> display_core(base, count_of(names, base)) == base
            + seq!['_'] + decimal(count_of(names, base)),
{
}

} // verus!
