//! Byte-level text helpers: header text (visible ASCII), case folding,
//! trimming, searching, and strict UTF-8 decoding to `String`.

use vstd::prelude::*;
use vstd::utf8::{valid_utf8, decode_utf8, is_leading_byte_width_1, valid_first_scalar,
    pop_first_scalar, decode_first_scalar, length_of_first_scalar};

verus! {

/// A byte a header value may hold and still count as header text:
/// visible ASCII, space or horizontal tab.
pub open spec fn is_visible_byte(b: u8) -> bool {
    32 <= b <= 126 || b == 9
}

/// Header text: every byte visible ASCII, space or tab.
pub open spec fn is_header_text(b: Seq<u8>) -> bool {
    forall|i: int| 0 <= i < b.len() ==> is_visible_byte(#[trigger] b[i])
}

/// The characters spelled by a sequence of ASCII bytes.
pub open spec fn ascii_chars(b: Seq<u8>) -> Seq<char> {
    b.map_values(|x: u8| x as char)
}

/// ASCII bytes are valid UTF-8 and decode to themselves, character for
/// character.
pub proof fn lemma_ascii_valid_utf8(b: Seq<u8>)
    requires
        forall|i: int| 0 <= i < b.len() ==> #[trigger] b[i] < 0x80,
    ensures
        valid_utf8(b),
        decode_utf8(b) =~= ascii_chars(b),
    decreases b.len(),
{
    if b.len() > 0 {
        assert(is_leading_byte_width_1(b[0]));
        assert(valid_first_scalar(b));
        let b0 = b[0];
        assert(b0 & 0x7f == b0) by (bit_vector)
            requires b0 < 0x80;
        assert(decode_first_scalar(b) == b[0] as u32);
        assert(length_of_first_scalar(b) == 1);
        assert(pop_first_scalar(b) =~= b.drop_first());
        lemma_ascii_valid_utf8(b.drop_first());
        assert(decode_utf8(b) =~= seq![b[0] as char] + decode_utf8(b.drop_first()));
    }
}

/// Relies on std's `str::from_utf8`: it returns `Ok` exactly on valid UTF-8
/// input, and the resulting string spells that input's scalar values.
#[verifier::external_body]
pub fn utf8_to_string(v: &Vec<u8>) -> (r: Option<String>)
    ensures
        r is Some <==> valid_utf8(v@),
        r matches Some(s) ==> s@ == decode_utf8(v@),
{
    match core::str::from_utf8(v.as_slice()) {
        Ok(s) => Some(s.to_string()),
        Err(_) => None,
    }
}

/// ASCII lower-casing of one byte.
pub open spec fn lc_byte(b: u8) -> u8 {
    if 65 <= b <= 90 {
        (b + 32) as u8
    } else {
        b
    }
}

/// ASCII lower-casing of a character's code point.
pub open spec fn lc_code(c: char) -> u32 {
    if 65 <= c as u32 <= 90 {
        (c as u32 + 32) as u32
    } else {
        c as u32
    }
}

/// ASCII lower-casing of one character.
pub open spec fn lc_char(c: char) -> char {
    if 65 <= c as u32 <= 90 {
        ((c as u32 + 32) as u32) as char
    } else {
        c
    }
}

/// ASCII lower-casing of a character sequence.
pub open spec fn lc_chars(s: Seq<char>) -> Seq<char> {
    s.map_values(|c: char| lc_char(c))
}

/// A fresh copy of `v`, ASCII-lower-cased byte by byte.
pub fn lower_bytes(v: &Vec<u8>) -> (r: Vec<u8>)
    ensures
        r@ == v@.map_values(|b: u8| lc_byte(b)),
{
    let mut r: Vec<u8> = Vec::new();
    let mut i: usize = 0;
    while i < v.len()
        invariant
            0 <= i <= v@.len(),
            r@ =~= v@.map_values(|b: u8| lc_byte(b)).take(i as int),
        decreases v@.len() - i,
    {
        let b = v[i];
        let lb: u8 = if 65 <= b && b <= 90 {
            b + 32
        } else {
            b
        };
        r.push(lb);
        proof {
            assert(r@ =~= v@.map_values(|b: u8| lc_byte(b)).take(i + 1 as int));
        }
        i += 1;
    }
    proof {
        assert(r@ =~= v@.map_values(|b: u8| lc_byte(b)));
    }
    r
}

/// On ASCII bytes, lower-casing the bytes and lower-casing the characters
/// they spell agree.
pub proof fn lemma_lc_bytes_chars(b: Seq<u8>)
    requires
        forall|i: int| 0 <= i < b.len() ==> #[trigger] b[i] < 0x80,
    ensures
        ascii_chars(b.map_values(|x: u8| lc_byte(x))) =~= lc_chars(ascii_chars(b)),
{
    assert forall|i: int| 0 <= i < b.len() implies ascii_chars(b.map_values(|x: u8| lc_byte(x)))[i]
        == lc_chars(ascii_chars(b))[i] by {
        let x = b[i];
        assert((x as char) as u32 == x);
        if 65 <= x <= 90 {
            assert(lc_byte(x) == (x + 32) as u8);
            assert((((x as char) as u32 + 32) as u32) as char == (lc_byte(x)) as char);
        }
    }
}

/// Character sequences equal up to ASCII case.
pub open spec fn eq_ci(a: Seq<char>, b: Seq<char>) -> bool {
    a.len() == b.len() && forall|i: int| 0 <= i < a.len() ==> lc_code(a[i]) == lc_code(#[trigger] b[i])
}

/// Index of the first occurrence of `x`, if any.
pub open spec fn find_byte(b: Seq<u8>, x: u8) -> Option<int>
    decreases b.len(),
{
    if b.len() == 0 {
        None
    } else if b[0] == x {
        Some(0)
    } else {
        match find_byte(b.drop_first(), x) {
            None => None,
            Some(i) => Some(i + 1),
        }
    }
}

/// A found index is in range and hits the byte sought.
pub proof fn lemma_find_byte_range(b: Seq<u8>, x: u8)
    ensures
        find_byte(b, x) matches Some(i) ==> 0 <= i < b.len() && b[i] == x,
    decreases b.len(),
{
    if b.len() > 0 && b[0] != x {
        lemma_find_byte_range(b.drop_first(), x);
    }
}

pub proof fn lemma_find_byte_none(b: Seq<u8>, x: u8)
    requires
        forall|j: int| 0 <= j < b.len() ==> #[trigger] b[j] != x,
    ensures
        find_byte(b, x) is None,
    decreases b.len(),
{
    if b.len() > 0 {
        lemma_find_byte_none(b.drop_first(), x);
    }
}

pub proof fn lemma_find_byte_at(b: Seq<u8>, x: u8, i: int)
    requires
        0 <= i < b.len(),
        b[i] == x,
        forall|j: int| 0 <= j < i ==> #[trigger] b[j] != x,
    ensures
        find_byte(b, x) == Some(i),
    decreases b.len(),
{
    if i > 0 {
        lemma_find_byte_at(b.drop_first(), x, i - 1);
    }
}

/// First occurrence of `x` in `v`, scanning left to right.
pub fn find_byte_in(v: &Vec<u8>, x: u8) -> (r: Option<usize>)
    ensures
        match r {
            Some(i) => find_byte(v@, x) == Some(i as int),
            None => find_byte(v@, x) is None,
        },
{
    let mut i: usize = 0;
    while i < v.len()
        invariant
            0 <= i <= v@.len(),
            forall|j: int| 0 <= j < i ==> #[trigger] v@[j] != x,
        decreases v@.len() - i,
    {
        if v[i] == x {
            proof {
                lemma_find_byte_at(v@, x, i as int);
            }
            return Some(i);
        }
        i += 1;
    }
    proof {
        lemma_find_byte_none(v@, x);
    }
    None
}

/// A byte that counts as surrounding whitespace: space or tab.
pub open spec fn is_ws(b: u8) -> bool {
    b == 32 || b == 9
}

/// Bytes with leading and trailing whitespace removed: the subrange from the
/// first non-whitespace byte through the last one.
pub open spec fn trim_ws(b: Seq<u8>) -> Seq<u8>
    decreases b.len(),
{
    if b.len() > 0 && is_ws(b[0]) {
        trim_ws(b.drop_first())
    } else if b.len() > 0 && is_ws(b.last()) {
        trim_ws(b.drop_last())
    } else {
        b
    }
}

/// A fresh copy of `v[a..b]`.
pub fn subvec(v: &Vec<u8>, a: usize, b: usize) -> (r: Vec<u8>)
    requires
        0 <= a <= b <= v@.len(),
    ensures
        r@ == v@.subrange(a as int, b as int),
{
    let mut r: Vec<u8> = Vec::new();
    let mut i: usize = a;
    while i < b
        invariant
            a <= i <= b <= v@.len(),
            r@ == v@.subrange(a as int, i as int),
        decreases b - i,
    {
        r.push(v[i]);
        assert(r@ =~= v@.subrange(a as int, i + 1 as int));
        i += 1;
    }
    r
}

/// `v` trimmed of surrounding spaces and tabs.
pub fn trim_bytes(v: &Vec<u8>) -> (r: Vec<u8>)
    ensures
        r@ == trim_ws(v@),
{
    let mut a: usize = 0;
    let mut b: usize = v.len();
    proof {
        assert(v@.subrange(0, v@.len() as int) =~= v@);
    }
    while a < b && (v[a] == 32 || v[a] == 9)
        invariant
            0 <= a <= b <= v@.len(),
            b == v@.len(),
            trim_ws(v@) == trim_ws(v@.subrange(a as int, b as int)),
        decreases b - a,
    {
        proof {
            assert(v@.subrange(a as int, b as int).drop_first()
                =~= v@.subrange(a + 1 as int, b as int));
        }
        a += 1;
    }
    while a < b && (v[b - 1] == 32 || v[b - 1] == 9)
        invariant
            0 <= a <= b <= v@.len(),
            trim_ws(v@) == trim_ws(v@.subrange(a as int, b as int)),
            a < b ==> !is_ws(v@[a as int]),
        decreases b - a,
    {
        proof {
            assert(v@.subrange(a as int, b as int).drop_last()
                =~= v@.subrange(a as int, b - 1 as int));
        }
        b -= 1;
    }
    proof {
        assert(trim_ws(v@.subrange(a as int, b as int)) == v@.subrange(a as int, b as int));
    }
    subvec(v, a, b)
}

/// `b` holds `pat` as a substring, compared up to ASCII case.
pub open spec fn contains_ci(b: Seq<u8>, pat: Seq<u8>) -> bool {
    exists|i: int|
        0 <= i && i + pat.len() <= b.len() && #[trigger] matches_ci_at(b, pat, i)
}

/// `pat` occurs at offset `i` of `b`, compared up to ASCII case.
pub open spec fn matches_ci_at(b: Seq<u8>, pat: Seq<u8>, i: int) -> bool {
    forall|j: int| 0 <= j < pat.len() ==> lc_byte(b[i + j]) == lc_byte(#[trigger] pat[j])
}

/// Case-insensitive substring search.
pub fn contains_bytes_ci(v: &Vec<u8>, pat: &Vec<u8>) -> (r: bool)
    ensures
        r == contains_ci(v@, pat@),
{
    if pat.len() == 0 {
        assert(matches_ci_at(v@, pat@, 0));
        return true;
    }
    if pat.len() > v.len() {
        return false;
    }
    let last = v.len() - pat.len();
    let mut i: usize = 0;
    while i <= last
        invariant
            0 <= i <= last + 1,
            1 <= pat@.len() <= v@.len(),
            v@.len() <= usize::MAX,
            last == v@.len() - pat@.len(),
            forall|k: int| 0 <= k < i ==> !matches_ci_at(v@, pat@, k),
        decreases last + 1 - i,
    {
        let mut j: usize = 0;
        let mut ok: bool = true;
        while ok && j < pat.len()
            invariant
                0 <= j <= pat@.len(),
                i <= last,
                1 <= pat@.len() <= v@.len(),
                v@.len() <= usize::MAX,
                last == v@.len() - pat@.len(),
                ok ==> forall|t: int| 0 <= t < j ==> lc_byte(v@[i + t]) == lc_byte(#[trigger] pat@[t]),
                !ok ==> !matches_ci_at(v@, pat@, i as int),
            decreases pat@.len() - j,
        {
            let a = v[i + j];
            let c = pat[j];
            let la: u8 = if 65 <= a && a <= 90 { a + 32 } else { a };
            let lc: u8 = if 65 <= c && c <= 90 { c + 32 } else { c };
            if la != lc {
                assert(lc_byte(v@[i + j]) != lc_byte(pat@[j as int]));
                assert(!matches_ci_at(v@, pat@, i as int));
                ok = false;
                j = pat.len();
            } else {
                j += 1;
            }
        }
        if ok {
            assert(j == pat@.len());
        }
        if ok {
            assert(matches_ci_at(v@, pat@, i as int));
            return true;
        }
        i += 1;
    }
    assert(forall|k: int| 0 <= k && k + pat@.len() <= v@.len() ==> !matches_ci_at(v@, pat@, k));
    false
}

/// Reads a header value as text: succeeds exactly when every byte is
/// visible ASCII, space or tab, and then spells those bytes as characters.
pub fn header_text_string(v: &Vec<u8>) -> (r: Option<String>)
    ensures
        r is Some <==> is_header_text(v@),
        r matches Some(s) ==> s@ == ascii_chars(v@),
{
    let mut i: usize = 0;
    while i < v.len()
        invariant
            0 <= i <= v@.len(),
            forall|j: int| 0 <= j < i ==> is_visible_byte(#[trigger] v@[j]),
        decreases v@.len() - i,
    {
        let b = v[i];
        if !(32 <= b && b <= 126 || b == 9) {
            assert(!is_visible_byte(v@[i as int]));
            return None;
        }
        i += 1;
    }
    proof {
        lemma_ascii_valid_utf8(v@);
    }
    match utf8_to_string(v) {
        Some(s) => Some(s),
        None => vstd::pervasive::unreached(),
    }
}

/// Non-empty and nothing but ASCII digits.
pub open spec fn all_digits(b: Seq<u8>) -> bool {
    b.len() > 0 && forall|i: int| 0 <= i < b.len() ==> 48 <= #[trigger] b[i] <= 57
}

/// The digits of a declared length, past an optional leading `+`.
pub open spec fn digits_body(b: Seq<u8>) -> Seq<u8> {
    if b.len() > 0 && b[0] == 43 {
        b.drop_first()
    } else {
        b
    }
}

/// Value spelled by a sequence of ASCII digits, most significant first.
pub open spec fn digits_val(b: Seq<u8>) -> int
    decreases b.len(),
{
    if b.len() == 0 {
        0
    } else {
        digits_val(b.drop_last()) * 10 + (b.last() - 48)
    }
}

/// What a declared `Content-Length` value means: a non-negative integer that
/// fits the machine, spelled as optional `+` then digits; anything else is
/// unparsable.
pub open spec fn content_length_of(b: Seq<u8>) -> Option<usize> {
    let d = digits_body(b);
    if all_digits(d) && digits_val(d) <= usize::MAX {
        Some(digits_val(d) as usize)
    } else {
        None
    }
}

proof fn lemma_digits_val_nonneg(b: Seq<u8>)
    requires
        forall|i: int| 0 <= i < b.len() ==> 48 <= #[trigger] b[i],
    ensures
        digits_val(b) >= 0,
    decreases b.len(),
{
    if b.len() > 0 {
        lemma_digits_val_nonneg(b.drop_last());
        assert(forall|i: int| 0 <= i < b.drop_last().len() ==> 48 <= #[trigger] b.drop_last()[i]);
    }
}

proof fn lemma_digits_val_prefix(b: Seq<u8>, k: int)
    requires
        0 <= k <= b.len(),
        forall|i: int| 0 <= i < b.len() ==> 48 <= #[trigger] b[i],
    ensures
        digits_val(b) >= digits_val(b.take(k)),
    decreases b.len() - k,
{
    if k < b.len() {
        lemma_digits_val_nonneg(b.take(k));
        assert(b.take(k + 1).drop_last() =~= b.take(k));
        assert(digits_val(b.take(k + 1)) == digits_val(b.take(k)) * 10 + (b[k] - 48));
        assert(digits_val(b.take(k + 1)) >= digits_val(b.take(k)));
        lemma_digits_val_prefix(b, k + 1);
        assert(b.take(b.len() as int) =~= b);
    } else {
        assert(b.take(k) =~= b);
    }
}

/// Parses a declared `Content-Length`: optional `+`, then digits, rejecting
/// anything else and any value above what the machine can hold.
pub fn parse_content_length(v: &Vec<u8>) -> (r: Option<usize>)
    ensures
        r == content_length_of(v@),
{
    let ghost d = digits_body(v@);
    let start: usize = if v.len() > 0 && v[0] == 43 {
        1
    } else {
        0
    };
    proof {
        assert(d =~= v@.skip(start as int));
    }
    if v.len() == start {
        return None;
    }
    let mut val: usize = 0;
    let mut i: usize = start;
    while i < v.len()
        invariant
            start <= i <= v@.len(),
            start < v@.len(),
            d == digits_body(v@),
            d =~= v@.skip(start as int),
            forall|j: int| 0 <= j < i - start ==> 48 <= #[trigger] d[j] <= 57,
            val == digits_val(d.take(i - start)),
        decreases v@.len() - i,
    {
        let b = v[i];
        if !(48 <= b && b <= 57) {
            assert(d[i - start] == b && !(48 <= b <= 57));
            assert(!all_digits(d));
            return None;
        }
        let dd: usize = (b - 48) as usize;
        proof {
            assert(d.take(i - start + 1).drop_last() =~= d.take(i - start));
            assert(digits_val(d.take(i - start + 1)) == digits_val(d.take(i - start)) * 10 + (d[i - start] - 48));
        }
        match val.checked_mul(10) {
            Some(m) => match m.checked_add(dd) {
                Some(nv) => {
                    val = nv;
                },
                None => {
                    proof {
                        lemma_digits_val_prefix_all(d, i - start + 1, v@, start as int, i as int);
                    }
                    return None;
                },
            },
            None => {
                proof {
                    assert(digits_val(d.take(i - start + 1)) > usize::MAX);
                    lemma_digits_val_prefix_all(d, i - start + 1, v@, start as int, i as int);
                }
                return None;
            },
        }
        i += 1;
    }
    proof {
        assert(d.take(i - start) =~= d);
        assert(all_digits(d));
    }
    Some(val)
}

/// When some prefix of the digits already exceeds the machine's range, the
/// whole declared length does too, if every byte so far was a digit.
proof fn lemma_digits_val_prefix_all(d: Seq<u8>, k: int, v: Seq<u8>, start: int, i: int)
    requires
        0 <= start <= i < v.len(),
        d =~= v.skip(start),
        k == i - start + 1,
        forall|j: int| 0 <= j < k ==> 48 <= #[trigger] d[j] <= 57,
        digits_val(d.take(k)) > usize::MAX,
    ensures
        !(all_digits(d) && digits_val(d) <= usize::MAX),
{
    if all_digits(d) {
        lemma_digits_val_prefix(d, k);
    }
}

} // verus!
