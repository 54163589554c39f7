//! Cookies, parsed lazily from the `Cookie` headers and cached on the
//! message: an ordered jar, derived once and immutable thereafter.

use vstd::prelude::*;
use vstd::utf8::{valid_utf8, decode_utf8};
use crate::errors::CookieParseError;
use crate::headers::{get_all_headers, lookup_all};
use crate::message::HttpMessage;
use crate::text::{find_byte, lemma_find_byte_range, trim_ws, trim_bytes, subvec, find_byte_in,
    utf8_to_string};

verus! {

/// One cookie: its name and its value, percent-decoded.
pub struct HttpCookie {
    pub name: String,
    pub value: String,
}

impl HttpCookie {
    /// The cookie as a pair of character sequences.
    pub open spec fn pair(self) -> (Seq<char>, Seq<char>) {
        (self.name@, self.value@)
    }
}

impl Clone for HttpCookie {
    fn clone(&self) -> (r: HttpCookie)
        ensures
            r.pair() == self.pair(),
    {
        HttpCookie { name: self.name.clone(), value: self.value.clone() }
    }
}

/// The pairs a jar holds, in order.
pub open spec fn cookie_pairs(v: Seq<HttpCookie>) -> Seq<(Seq<char>, Seq<char>)> {
    v.map_values(|c: HttpCookie| c.pair())
}

/// What the cookie parser makes of one non-empty trimmed segment: the
/// percent-decoded name and value, or nothing when the segment is malformed.
pub uninterp spec fn cookie_parse_of(s: Seq<char>) -> Option<(Seq<char>, Seq<char>)>;

/// Relies on `Cookie::parse_encoded` and its `name` and `value` accessors:
/// whether a segment parses, and what it decodes to, depend on the segment
/// alone.
#[verifier::external_body]
fn parse_cookie_str(s: &str) -> (r: Option<HttpCookie>)
    ensures
        r is Some <==> cookie_parse_of(s@) is Some,
        r matches Some(c) ==> cookie_parse_of(s@) == Some(c.pair()),
{
    match cookie::Cookie::parse_encoded(s) {
        Ok(c) => Some(HttpCookie { name: c.name().to_string(), value: c.value().to_string() }),
        Err(_) => None,
    }
}

/// A byte sequence split on `;`, the separators dropped.
pub open spec fn split_semi(b: Seq<u8>) -> Seq<Seq<u8>>
    decreases b.len(),
    via split_semi_decreases
{
    match find_byte(b, 59) {
        Some(i) => seq![b.take(i)] + split_semi(b.skip(i + 1)),
        None => seq![b],
    }
}

#[via_fn]
proof fn split_semi_decreases(b: Seq<u8>) {
    lemma_find_byte_range(b, 59);
}

/// What one header value's `;`-separated segments parse to: empty segments
/// are dropped; a segment that is not UTF-8 fails `InvalidEncoding`; one the
/// parser rejects fails `MalformedCookie`; otherwise the decoded pairs, in
/// written order.
pub open spec fn parse_segments(segs: Seq<Seq<u8>>) -> Result<
    Seq<(Seq<char>, Seq<char>)>,
    CookieParseError,
>
    decreases segs.len(),
{
    if segs.len() == 0 {
        Ok(Seq::empty())
    } else {
        let t = trim_ws(segs[0]);
        if t.len() == 0 {
            parse_segments(segs.drop_first())
        } else if !valid_utf8(t) {
            Err(CookieParseError::InvalidEncoding)
        } else {
            match cookie_parse_of(decode_utf8(t)) {
                None => Err(CookieParseError::MalformedCookie),
                Some(p) => match parse_segments(segs.drop_first()) {
                    Err(e) => Err(e),
                    Ok(rest) => Ok(seq![p] + rest),
                },
            }
        }
    }
}

/// What one `Cookie` header value parses to: `InvalidEncoding` unless the
/// whole value is UTF-8, then its segments in order.
pub open spec fn cookies_of_value(b: Seq<u8>) -> Result<
    Seq<(Seq<char>, Seq<char>)>,
    CookieParseError,
> {
    if !valid_utf8(b) {
        Err(CookieParseError::InvalidEncoding)
    } else {
        parse_segments(split_semi(b))
    }
}

/// What a run of `Cookie` header values parses to: each value's cookies in
/// header order, failing on the first bad value.
pub open spec fn cookies_of_values(vals: Seq<Seq<u8>>) -> Result<
    Seq<(Seq<char>, Seq<char>)>,
    CookieParseError,
>
    decreases vals.len(),
{
    if vals.len() == 0 {
        Ok(Seq::empty())
    } else {
        match cookies_of_value(vals[0]) {
            Err(e) => Err(e),
            Ok(s) => match cookies_of_values(vals.drop_first()) {
                Err(e) => Err(e),
                Ok(rest) => Ok(s + rest),
            },
        }
    }
}

/// The jar a message's headers describe: every `Cookie` header occurrence,
/// in insertion order.
pub open spec fn cookies_of(entries: Seq<(Seq<char>, Seq<u8>)>) -> Result<
    Seq<(Seq<char>, Seq<char>)>,
    CookieParseError,
> {
    cookies_of_values(lookup_all(entries, "cookie"@))
}

/// The jar `cookies` returns: the cache when it is filled, else what the
/// headers describe.
pub open spec fn jar_result(m: HttpMessage) -> Result<
    Seq<(Seq<char>, Seq<char>)>,
    CookieParseError,
> {
    match m.jar() {
        Some(j) => Ok(j),
        None => cookies_of(m.entries()),
    }
}

/// Handles one `;`-separated segment: drops it when blank, parses it
/// otherwise, appending the cookie to `out`.
pub(crate) fn consume_segment(out: &mut Vec<HttpCookie>, seg: &Vec<u8>) -> (r: Result<
    (),
    CookieParseError,
>)
    ensures
        ({
            let t = trim_ws(seg@);
            if t.len() == 0 {
                r is Ok && final(out)@ == old(out)@
            } else if !valid_utf8(t) {
                r == Err::<(), CookieParseError>(CookieParseError::InvalidEncoding)
                    && final(out)@ == old(out)@
            } else {
                match cookie_parse_of(decode_utf8(t)) {
                    None => r == Err::<(), CookieParseError>(CookieParseError::MalformedCookie)
                        && final(out)@ == old(out)@,
                    Some(p) => r is Ok && final(out)@.len() == old(out)@.len() + 1
                        && cookie_pairs(final(out)@) == cookie_pairs(old(out)@).push(p),
                }
            }
        }),
{
    let t = trim_bytes(seg);
    if t.len() == 0 {
        return Ok(());
    }
    match utf8_to_string(&t) {
        None => Err(CookieParseError::InvalidEncoding),
        Some(s) => {
            match parse_cookie_str(s.as_str()) {
                None => Err(CookieParseError::MalformedCookie),
                Some(c) => {
                    let ghost p = c.pair();
                    out.push(c);
                    proof {
                        assert(cookie_pairs(out@) =~= cookie_pairs(old(out)@).push(p));
                    }
                    Ok(())
                },
            }
        },
    }
}

/// How far the jar has come while one header value's segments are consumed:
/// the whole parse equals the pairs already out, then the rest of this
/// value, then the remaining header values.
pub(crate) open spec fn progress_inner(
    vmaps: Seq<Seq<u8>>,
    k: int,
    curb: Seq<u8>,
    outp: Seq<(Seq<char>, Seq<char>)>,
) -> bool {
    cookies_of_values(vmaps) == (match parse_segments(split_semi(curb)) {
        Err(e) => Err::<Seq<(Seq<char>, Seq<char>)>, CookieParseError>(e),
        Ok(s) => match cookies_of_values(vmaps.skip(k + 1)) {
            Err(e) => Err(e),
            Ok(rest) => Ok(outp + s + rest),
        },
    })
}

/// How far the jar has come between header values: the whole parse equals
/// the pairs already out, then the remaining header values.
pub(crate) open spec fn progress_outer(
    vmaps: Seq<Seq<u8>>,
    k: int,
    outp: Seq<(Seq<char>, Seq<char>)>,
) -> bool {
    cookies_of_values(vmaps) == (match cookies_of_values(vmaps.skip(k)) {
        Err(e) => Err::<Seq<(Seq<char>, Seq<char>)>, CookieParseError>(e),
        Ok(rest) => Ok(outp + rest),
    })
}

/// What handling one segment leaves behind: nothing new for a blank
/// segment, one parsed pair otherwise.
pub(crate) open spec fn seg_consumed(
    h: Seq<u8>,
    outp: Seq<(Seq<char>, Seq<char>)>,
    outp2: Seq<(Seq<char>, Seq<char>)>,
) -> bool {
    let t = trim_ws(h);
    ||| (t.len() == 0 && outp2 == outp)
    ||| (t.len() > 0 && valid_utf8(t)
        && (cookie_parse_of(decode_utf8(t)) matches Some(p) && outp2 == outp.push(p)))
}

/// A failing segment fails the whole jar with its own error.
pub(crate) proof fn lemma_progress_err(
    vmaps: Seq<Seq<u8>>,
    k: int,
    curb: Seq<u8>,
    outp: Seq<(Seq<char>, Seq<char>)>,
    h: Seq<u8>,
    e: CookieParseError,
)
    requires
        progress_inner(vmaps, k, curb, outp),
        split_semi(curb).len() > 0,
        split_semi(curb)[0] == h,
        trim_ws(h).len() > 0,
        (!valid_utf8(trim_ws(h)) && e == CookieParseError::InvalidEncoding) || (valid_utf8(
            trim_ws(h),
        ) && cookie_parse_of(decode_utf8(trim_ws(h))) is None
            && e == CookieParseError::MalformedCookie),
    ensures
        cookies_of_values(vmaps) == Err::<Seq<(Seq<char>, Seq<char>)>, CookieParseError>(e),
{
    assert(parse_segments(split_semi(curb)) == Err::<Seq<(Seq<char>, Seq<char>)>,
        CookieParseError,
    >(e));
}

/// Consuming the first segment of a value carries the progress to the
/// value's remainder.
pub(crate) proof fn lemma_progress_step(
    vmaps: Seq<Seq<u8>>,
    k: int,
    curb: Seq<u8>,
    h: Seq<u8>,
    restb: Seq<u8>,
    outp: Seq<(Seq<char>, Seq<char>)>,
    outp2: Seq<(Seq<char>, Seq<char>)>,
)
    requires
        progress_inner(vmaps, k, curb, outp),
        split_semi(curb) == seq![h] + split_semi(restb),
        seg_consumed(h, outp, outp2),
    ensures
        progress_inner(vmaps, k, restb, outp2),
{
    let segs = seq![h] + split_semi(restb);
    assert(segs[0] == h);
    assert(segs.drop_first() =~= split_semi(restb));
    let t = trim_ws(h);
    if t.len() == 0 {
        assert(parse_segments(segs) == parse_segments(split_semi(restb)));
    } else {
        let p = cookie_parse_of(decode_utf8(t)).unwrap();
        match parse_segments(split_semi(restb)) {
            Err(e) => {
                assert(parse_segments(segs) == Err::<Seq<(Seq<char>, Seq<char>)>,
                    CookieParseError,
                >(e));
            },
            Ok(r) => {
                assert(parse_segments(segs) == Ok::<Seq<(Seq<char>, Seq<char>)>,
                    CookieParseError,
                >(seq![p] + r));
                assert(outp + (seq![p] + r) =~= outp.push(p) + r);
                match cookies_of_values(vmaps.skip(k + 1)) {
                    Err(_) => {},
                    Ok(rest) => {
                        assert(outp + (seq![p] + r) + rest =~= outp.push(p) + r + rest);
                    },
                }
            },
        }
    }
}

/// Consuming a value's last segment carries the progress to the next
/// header value.
pub(crate) proof fn lemma_progress_last(
    vmaps: Seq<Seq<u8>>,
    k: int,
    curb: Seq<u8>,
    outp: Seq<(Seq<char>, Seq<char>)>,
    outp2: Seq<(Seq<char>, Seq<char>)>,
)
    requires
        progress_inner(vmaps, k, curb, outp),
        split_semi(curb) == seq![curb],
        seg_consumed(curb, outp, outp2),
    ensures
        progress_outer(vmaps, k + 1, outp2),
{
    let segs = seq![curb];
    assert(segs[0] == curb);
    assert(segs.drop_first() =~= Seq::<Seq<u8>>::empty());
    assert(parse_segments(Seq::<Seq<u8>>::empty()) == Ok::<Seq<(Seq<char>, Seq<char>)>,
        CookieParseError,
    >(Seq::empty()));
    let t = trim_ws(curb);
    if t.len() == 0 {
        assert(parse_segments(segs) == Ok::<Seq<(Seq<char>, Seq<char>)>, CookieParseError>(
            Seq::empty(),
        ));
        match cookies_of_values(vmaps.skip(k + 1)) {
            Err(_) => {},
            Ok(rest) => {
                assert(outp + Seq::<(Seq<char>, Seq<char>)>::empty() + rest =~= outp + rest);
            },
        }
    } else {
        let p = cookie_parse_of(decode_utf8(t)).unwrap();
        assert(parse_segments(segs) == Ok::<Seq<(Seq<char>, Seq<char>)>, CookieParseError>(
            seq![p] + Seq::empty(),
        ));
        match cookies_of_values(vmaps.skip(k + 1)) {
            Err(_) => {},
            Ok(rest) => {
                assert(outp + (seq![p] + Seq::<(Seq<char>, Seq<char>)>::empty()) + rest
                    =~= outp.push(p) + rest);
            },
        }
    }
}

/// Entering a readable header value: its whole parse is still ahead.
pub(crate) proof fn lemma_enter_value(
    vmaps: Seq<Seq<u8>>,
    k: int,
    outp: Seq<(Seq<char>, Seq<char>)>,
)
    requires
        0 <= k < vmaps.len(),
        progress_outer(vmaps, k, outp),
        valid_utf8(vmaps[k]),
    ensures
        progress_inner(vmaps, k, vmaps[k], outp),
{
    assert(vmaps.skip(k)[0] == vmaps[k]);
    assert(vmaps.skip(k).drop_first() =~= vmaps.skip(k + 1));
    match parse_segments(split_semi(vmaps[k])) {
        Err(e) => {
            assert(cookies_of_values(vmaps.skip(k)) == Err::<Seq<(Seq<char>, Seq<char>)>,
                CookieParseError,
            >(e));
        },
        Ok(s) => {
            match cookies_of_values(vmaps.skip(k + 1)) {
                Err(_) => {},
                Ok(rest) => {
                    assert(outp + (s + rest) =~= outp + s + rest);
                },
            }
        },
    }
}

/// A fresh jar spelling the same pairs.
pub(crate) fn clone_jar(v: &Vec<HttpCookie>) -> (r: Vec<HttpCookie>)
    ensures
        cookie_pairs(r@) == cookie_pairs(v@),
{
    let mut r: Vec<HttpCookie> = Vec::new();
    let mut i: usize = 0;
    proof {
        assert(cookie_pairs(r@) =~= cookie_pairs(v@.take(0)));
    }
    while i < v.len()
        invariant
            0 <= i <= v@.len(),
            r@.len() == i,
            cookie_pairs(r@) == cookie_pairs(v@.take(i as int)),
        decreases v@.len() - i,
    {
        let ghost r0 = r@;
        let c = v[i].clone();
        let ghost cp = c.pair();
        r.push(c);
        proof {
            assert forall|j: int| 0 <= j < i + 1 implies cookie_pairs(r@)[j] == cookie_pairs(
                v@.take(i + 1 as int),
            )[j] by {
                if j < i {
                    assert(r@[j] == r0[j]);
                    assert(r@[j].pair() == cookie_pairs(r0)[j]);
                    assert(cookie_pairs(v@.take(i as int))[j] == v@.take(i as int)[j].pair());
                } else {
                    assert(r@[j] == c);
                }
            }
            assert(cookie_pairs(r@) =~= cookie_pairs(v@.take(i + 1 as int)));
        }
        i += 1;
    }
    proof {
        assert(v@.take(i as int) =~= v@);
    }
    r
}

/// First cookie under `name` in a jar, compared exactly.
pub(crate) fn find_in_jar(v: &Vec<HttpCookie>, name: &str) -> (r: Option<HttpCookie>)
    ensures
        match find_cookie(cookie_pairs(v@), name@) {
            Some(p) => r matches Some(c) && c.pair() == p,
            None => r is None,
        },
{
    let wanted = name.to_owned();
    let ghost pairs = cookie_pairs(v@);
    let mut i: usize = 0;
    proof {
        assert(pairs.skip(0) =~= pairs);
    }
    while i < v.len()
        invariant
            0 <= i <= v@.len(),
            pairs == cookie_pairs(v@),
            wanted@ == name@,
            find_cookie(pairs, name@) == find_cookie(pairs.skip(i as int), name@),
        decreases v@.len() - i,
    {
        proof {
            assert(pairs.skip(i as int)[0] == pairs[i as int]);
            assert(pairs.skip(i as int).drop_first() =~= pairs.skip(i + 1 as int));
        }
        if v[i].name == wanted {
            return Some(v[i].clone());
        }
        i += 1;
    }
    proof {
        assert(pairs.skip(i as int) =~= Seq::<(Seq<char>, Seq<char>)>::empty());
    }
    None
}

/// First pair under `name`, compared exactly.
pub open spec fn find_cookie(s: Seq<(Seq<char>, Seq<char>)>, name: Seq<char>) -> Option<
    (Seq<char>, Seq<char>),
>
    decreases s.len(),
{
    if s.len() == 0 {
        None
    } else if s[0].0 == name {
        Some(s[0])
    } else {
        find_cookie(s.drop_first(), name)
    }
}

} // verus!
