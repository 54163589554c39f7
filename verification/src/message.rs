//! The HTTP message: read-only headers, a body claimable once, and the
//! cookie cache, with content negotiation over the headers.

use vstd::prelude::*;
use crate::charset::{charset_name_of, Charset};
use crate::cookies::{clone_jar, consume_segment, cookie_pairs, cookies_of, cookies_of_value,
    cookies_of_values, find_cookie, find_in_jar, jar_result, lemma_enter_value,
    lemma_progress_err, lemma_progress_last, lemma_progress_step, progress_inner, progress_outer,
    split_semi, HttpCookie};
use crate::errors::{ContentTypeError, CookieParseError, ParseError};
use crate::headers::{append_header, get_all_headers, get_header, header_entries_of, lookup_first,
    new_header_map};
use crate::media::{mime_parse_of, param_lookup, parse_mime, MimeModel, MimeType};
use crate::payload::Payload;
use crate::text::{ascii_chars, contains_ci, find_byte, header_text_string, is_header_text,
    is_visible_byte, trim_bytes, trim_ws, subvec, find_byte_in, contains_bytes_ci, lc_byte,
    lc_chars, lemma_lc_bytes_chars, lower_bytes, utf8_to_string};

verus! {

/// An HTTP message as this layer sees it: a header map, a chunk source that
/// can be taken exactly once, and the parsed-cookie cache.
pub struct HttpMessage {
    pub(crate) headers: http::HeaderMap<Vec<u8>>,
    pub(crate) payload: Option<Payload>,
    pub(crate) cookie_jar: Option<Vec<HttpCookie>>,
}

/// The `Content-Type` token: the text before any `;`, trimmed and
/// lower-cased — or empty when the header is absent or not header text.
pub open spec fn content_type_of(entries: Seq<(Seq<char>, Seq<u8>)>) -> Seq<char> {
    match lookup_first(entries, "content-type"@) {
        None => Seq::empty(),
        Some(v) => if is_header_text(v) {
            lc_chars(ascii_chars(trim_ws(semi_prefix(v))))
        } else {
            Seq::empty()
        },
    }
}

/// The bytes before the first `;`, or all of them.
pub open spec fn semi_prefix(v: Seq<u8>) -> Seq<u8> {
    match find_byte(v, 59) {
        Some(i) => v.take(i),
        None => v,
    }
}

/// What parsing the `Content-Type` header yields: nothing when absent, the
/// parsed structure when it parses, an error when it is not header text or
/// not a media type.
pub open spec fn mime_type_of(entries: Seq<(Seq<char>, Seq<u8>)>) -> Result<
    Option<MimeModel>,
    ContentTypeError,
> {
    match lookup_first(entries, "content-type"@) {
        None => Ok(None),
        Some(v) => if !is_header_text(v) {
            Err(ContentTypeError::ParseError)
        } else {
            match mime_parse_of(ascii_chars(v)) {
                None => Err(ContentTypeError::ParseError),
                Some(m) => Ok(Some(m)),
            }
        },
    }
}

/// The charset label the message declares: an error when the content type
/// does not parse, the default (nothing) when no content type or no
/// `charset` parameter is present, else the parameter's value.
pub open spec fn charset_label_of(entries: Seq<(Seq<char>, Seq<u8>)>) -> Result<
    Option<Seq<char>>,
    ContentTypeError,
> {
    match mime_type_of(entries) {
        Err(e) => Err(e),
        Ok(None) => Ok(None),
        Ok(Some(m)) => Ok(param_lookup(m.params, "charset"@)),
    }
}

/// The charset a consumer resolved from the message: the default when none
/// is declared, else the declared label resolved, the UTF-8 tag set by the
/// canonical name.
pub open spec fn charset_matches(cs: Charset, entries: Seq<(Seq<char>, Seq<u8>)>) -> bool {
    match charset_label_of(entries) {
        Err(_) => false,
        Ok(None) => cs.is_utf8_spec() && cs.name_spec() == "utf-8"@,
        Ok(Some(l)) => cs.label_spec() == l && Some(cs.name_spec()) == charset_name_of(l) && (
        cs.is_utf8_spec() <==> cs.name_spec() == "utf-8"@),
    }
}

/// The token `chunked`, as bytes.
pub open spec fn chunked_token() -> Seq<u8> {
    seq![99u8, 104u8, 117u8, 110u8, 107u8, 101u8, 100u8]
}

/// What the `Transfer-Encoding` header declares: false when absent, whether
/// its text holds `chunked` (up to ASCII case) when readable, an error when
/// its bytes are not header text.
pub open spec fn chunked_of(entries: Seq<(Seq<char>, Seq<u8>)>) -> Result<bool, ParseError> {
    match lookup_first(entries, "transfer-encoding"@) {
        None => Ok(false),
        Some(v) => if is_header_text(v) {
            Ok(contains_ci(v, chunked_token()))
        } else {
            Err(ParseError::Header)
        },
    }
}

/// Trimming keeps every byte of header text visible.
proof fn lemma_trim_keeps_text(b: Seq<u8>)
    requires
        is_header_text(b),
    ensures
        is_header_text(trim_ws(b)),
    decreases b.len(),
{
    if b.len() > 0 && crate::text::is_ws(b[0]) {
        assert(is_header_text(b.drop_first()));
        lemma_trim_keeps_text(b.drop_first());
    } else if b.len() > 0 && crate::text::is_ws(b.last()) {
        assert(is_header_text(b.drop_last()));
        lemma_trim_keeps_text(b.drop_last());
    }
}

impl HttpMessage {
    /// The header entries, canonical name and value bytes, in insertion
    /// order.
    pub closed spec fn entries(self) -> Seq<(Seq<char>, Seq<u8>)> {
        header_entries_of(self.headers)
    }

    /// The chunk source, while the body is unclaimed.
    pub closed spec fn body_source(self) -> Option<Payload> {
        self.payload
    }

    /// The cached cookie jar, once `cookies` has filled it.
    pub closed spec fn jar(self) -> Option<Seq<(Seq<char>, Seq<char>)>> {
        match self.cookie_jar {
            None => None,
            Some(v) => Some(cookie_pairs(v@)),
        }
    }

    /// A message with no headers and an already-ended body.
    pub fn new() -> (r: HttpMessage)
        ensures
            r.entries() == Seq::<(Seq<char>, Seq<u8>)>::empty(),
            r.body_source() matches Some(p) && p.pending() == Seq::<Seq<u8>>::empty()
                && p.at_eof() && !p.failed(),
            r.jar() is None,
    {
        HttpMessage { headers: new_header_map(), payload: Some(Payload::empty()), cookie_jar: None }
    }

    /// Replaces the message's chunk source.
    pub fn set_payload(&mut self, p: Payload)
        ensures
            final(self).entries() == old(self).entries(),
            final(self).body_source() == Some(p),
            final(self).jar() == old(self).jar(),
    {
        self.payload = Some(p);
    }

    /// Appends one header occurrence; fails, changing nothing, on a name the
    /// header map refuses.
    pub fn insert_header(&mut self, name: &str, value: Vec<u8>) -> (r: bool)
        ensures
            r ==> final(self).entries() == old(self).entries().push((lc_chars(name@), value@)),
            !r ==> final(self).entries() == old(self).entries(),
            final(self).body_source() == old(self).body_source(),
            final(self).jar() == old(self).jar(),
    {
        append_header(&mut self.headers, name, value)
    }

    /// The header map, tied to this message's entries.
    pub fn headers(&self) -> (r: &http::HeaderMap<Vec<u8>>)
        ensures
            header_entries_of(*r) == self.entries(),
    {
        &self.headers
    }

    /// Claims the body: hands out the chunk source, leaving none behind.
    /// A body already claimed yields an exhausted source.
    pub fn take_payload(&mut self) -> (r: Payload)
        ensures
            final(self).entries() == old(self).entries(),
            final(self).jar() == old(self).jar(),
            final(self).body_source() is None,
            match old(self).body_source() {
                Some(p) => r == p,
                None => r.pending() == Seq::<Seq<u8>>::empty() && r.at_eof() && !r.failed(),
            },
    {
        match self.payload.take() {
            Some(p) => p,
            None => Payload::empty(),
        }
    }

    /// The content-type token: the text before `;` in the `Content-Type`
    /// header, trimmed and lower-cased, or empty when absent or unreadable.
    pub fn content_type(&self) -> (r: String)
        ensures
            r@ == content_type_of(self.entries()),
    {
        match get_header(&self.headers, "content-type") {
            None => String::new(),
            Some(v) => {
                match header_text_string(&v) {
                    None => String::new(),
                    Some(_) => {
                        proof {
                            crate::text::lemma_find_byte_range(v@, 59);
                        }
                        let upto = match find_byte_in(&v, 59) {
                            Some(i) => i,
                            None => v.len(),
                        };
                        let head = subvec(&v, 0, upto);
                        let tok = trim_bytes(&head);
                        let low = lower_bytes(&tok);
                        proof {
                            assert(head@ == semi_prefix(v@));
                            assert(forall|i: int| 0 <= i < head@.len()
                                ==> #[trigger] head@[i] == v@[i] && is_visible_byte(v@[i]));
                            assert(is_header_text(head@));
                            lemma_trim_keeps_text(head@);
                            assert(forall|i: int| 0 <= i < low@.len()
                                ==> #[trigger] low@[i] == lc_byte(tok@[i])
                                    && is_visible_byte(lc_byte(tok@[i])));
                            assert(is_header_text(low@));
                            lemma_lc_bytes_chars(tok@);
                        }
                        match header_text_string(&low) {
                            Some(s) => s,
                            None => vstd::pervasive::unreached(),
                        }
                    },
                }
            },
        }
    }

    /// Fully parses `Content-Type`: nothing when absent, `ParseError` when
    /// unreadable or structurally invalid.
    pub fn mime_type(&self) -> (r: Result<Option<MimeType>, ContentTypeError>)
        ensures
            match r {
                Ok(None) => mime_type_of(self.entries()) == Ok::<Option<MimeModel>, ContentTypeError>(None),
                Ok(Some(m)) => mime_type_of(self.entries()) == Ok::<Option<MimeModel>, ContentTypeError>(
                    Some(m.model()),
                ),
                Err(e) => mime_type_of(self.entries()) == Err::<Option<MimeModel>, ContentTypeError>(e),
            },
    {
        match get_header(&self.headers, "content-type") {
            None => Ok(None),
            Some(v) => {
                match header_text_string(&v) {
                    None => Err(ContentTypeError::ParseError),
                    Some(s) => {
                        match parse_mime(s.as_str()) {
                            None => Err(ContentTypeError::ParseError),
                            Some(m) => Ok(Some(m)),
                        }
                    },
                }
            },
        }
    }

    /// Resolves the message's charset: UTF-8 when no content type or no
    /// `charset` parameter is declared; `UnknownEncoding` on a label the
    /// registry does not know; parse failures propagate.
    pub fn encoding(&self) -> (r: Result<Charset, ContentTypeError>)
        ensures
            match charset_label_of(self.entries()) {
                Err(e) => r == Err::<Charset, ContentTypeError>(e),
                Ok(None) => r matches Ok(cs) && cs.is_utf8_spec() && cs.name_spec() == "utf-8"@,
                Ok(Some(label)) => match charset_name_of(label) {
                    None => r == Err::<Charset, ContentTypeError>(ContentTypeError::UnknownEncoding),
                    Some(n) => r matches Ok(cs) && cs.label_spec() == label && cs.name_spec() == n
                        && (cs.is_utf8_spec() <==> n == "utf-8"@),
                },
            },
    {
        match self.mime_type() {
            Err(e) => Err(e),
            Ok(None) => Ok(Charset::utf8()),
            Ok(Some(m)) => {
                match m.get_param("charset") {
                    None => Ok(Charset::utf8()),
                    Some(label) => {
                        match Charset::resolve(label) {
                            None => Err(ContentTypeError::UnknownEncoding),
                            Some(cs) => Ok(cs),
                        }
                    },
                }
            },
        }
    }

    /// Parses every `Cookie` header occurrence into the jar on the first
    /// call and caches it; later calls return the cached jar as it stands,
    /// whatever the headers say by then.
    pub fn cookies(&mut self) -> (r: Result<Vec<HttpCookie>, CookieParseError>)
        ensures
            final(self).entries() == old(self).entries(),
            final(self).body_source() == old(self).body_source(),
            match jar_result(*old(self)) {
                Ok(j) => r matches Ok(v) && cookie_pairs(v@) == j && final(self).jar() == Some(j),
                Err(e) => r == Err::<Vec<HttpCookie>, CookieParseError>(e)
                    && final(self).jar() == old(self).jar(),
            },
    {
        match &self.cookie_jar {
            Some(j) => {
                let out = clone_jar(j);
                return Ok(out);
            },
            None => {},
        }
        let vals = get_all_headers(&self.headers, "cookie");
        let ghost vmaps = vals@.map_values(|v: Vec<u8>| v@);
        proof {
            assert(cookies_of(old(self).entries()) == cookies_of_values(vmaps));
            assert(vmaps.skip(0) =~= vmaps);
        }
        let mut out: Vec<HttpCookie> = Vec::new();
        let mut k: usize = 0;
        while k < vals.len()
            invariant
                *self == *old(self),
                old(self).cookie_jar is None,
                0 <= k <= vals@.len(),
                vmaps == vals@.map_values(|v: Vec<u8>| v@),
                cookies_of(old(self).entries()) == cookies_of_values(vmaps),
                progress_outer(vmaps, k as int, cookie_pairs(out@)),
            decreases vals@.len() - k,
        {
            let val = &vals[k];
            match utf8_to_string(val) {
                None => {
                    proof {
                        assert(vmaps.skip(k as int)[0] == vmaps[k as int]);
                        assert(cookies_of_value(vmaps[k as int])
                            == Err::<Seq<(Seq<char>, Seq<char>)>, CookieParseError>(
                            CookieParseError::InvalidEncoding,
                        ));
                        assert(cookies_of_values(vmaps.skip(k as int))
                            == Err::<Seq<(Seq<char>, Seq<char>)>, CookieParseError>(
                            CookieParseError::InvalidEncoding,
                        ));
                    }
                    return Err(CookieParseError::InvalidEncoding);
                },
                Some(_) => {},
            }
            let mut cur: Vec<u8> = subvec(val, 0, val.len());
            proof {
                assert(cur@ =~= vmaps[k as int]);
                lemma_enter_value(vmaps, k as int, cookie_pairs(out@));
            }
            let mut more: usize = 1;
            while more == 1
                invariant
                    *self == *old(self),
                    old(self).cookie_jar is None,
                    0 <= k < vals@.len(),
                    vmaps == vals@.map_values(|v: Vec<u8>| v@),
                    cookies_of(old(self).entries()) == cookies_of_values(vmaps),
                    more <= 1,
                    more == 1 ==> progress_inner(vmaps, k as int, cur@, cookie_pairs(out@)),
                    more == 0 ==> progress_outer(vmaps, k + 1 as int, cookie_pairs(out@)),
                decreases cur@.len() + more,
            {
                proof {
                    crate::text::lemma_find_byte_range(cur@, 59);
                }
                match find_byte_in(&cur, 59) {
                    Some(i) => {
                        let seg = subvec(&cur, 0, i);
                        proof {
                            assert(split_semi(cur@) == seq![cur@.take(i as int)] + split_semi(
                                cur@.skip(i + 1 as int),
                            ));
                            assert(split_semi(cur@)[0] == seg@);
                            assert(split_semi(cur@).drop_first() =~= split_semi(
                                cur@.skip(i + 1 as int),
                            ));
                        }
                        let ghost out0 = out@;
                        match consume_segment(&mut out, &seg) {
                            Err(e) => {
                                proof {
                                    lemma_progress_err(vmaps, k as int, cur@, cookie_pairs(out0),
                                        seg@, e);
                                }
                                return Err(e);
                            },
                            Ok(()) => {},
                        }
                        let n = cur.len();
                        let rest = subvec(&cur, i + 1, n);
                        proof {
                            lemma_progress_step(vmaps, k as int, cur@, seg@, rest@,
                                cookie_pairs(out0), cookie_pairs(out@));
                        }
                        cur = rest;
                    },
                    None => {
                        proof {
                            assert(split_semi(cur@) == seq![cur@]);
                        }
                        let ghost out0 = out@;
                        match consume_segment(&mut out, &cur) {
                            Err(e) => {
                                proof {
                                    lemma_progress_err(vmaps, k as int, cur@, cookie_pairs(out0),
                                        cur@, e);
                                }
                                return Err(e);
                            },
                            Ok(()) => {},
                        }
                        proof {
                            lemma_progress_last(vmaps, k as int, cur@, cookie_pairs(out0),
                                cookie_pairs(out@));
                        }
                        more = 0;
                    },
                }
            }
            k += 1;
        }
        proof {
            assert(vmaps.skip(vals@.len() as int) =~= Seq::<Seq<u8>>::empty());
            assert(cookie_pairs(out@) + Seq::<(Seq<char>, Seq<char>)>::empty() =~= cookie_pairs(
                out@,
            ));
        }
        let r = clone_jar(&out);
        self.cookie_jar = Some(out);
        Ok(r)
    }

    /// First cookie under `name`, compared exactly; nothing when the jar
    /// cannot be parsed.
    pub fn cookie(&mut self, name: &str) -> (r: Option<HttpCookie>)
        ensures
            final(self).entries() == old(self).entries(),
            final(self).body_source() == old(self).body_source(),
            match jar_result(*old(self)) {
                Ok(j) => final(self).jar() == Some(j) && match find_cookie(j, name@) {
                    Some(p) => r matches Some(c) && c.pair() == p,
                    None => r is None,
                },
                Err(_) => r is None && final(self).jar() == old(self).jar(),
            },
    {
        match self.cookies() {
            Err(_) => None,
            Ok(v) => find_in_jar(&v, name),
        }
    }

    /// Whether `Transfer-Encoding` declares chunked transfer; an error when
    /// the header's bytes are not header text.
    pub fn chunked(&self) -> (r: Result<bool, ParseError>)
        ensures
            r == chunked_of(self.entries()),
    {
        match get_header(&self.headers, "transfer-encoding") {
            None => Ok(false),
            Some(v) => {
                match header_text_string(&v) {
                    None => Err(ParseError::Header),
                    Some(_) => {
                        let pat: Vec<u8> = vec![99u8, 104u8, 117u8, 110u8, 107u8, 101u8, 100u8];
                        proof {
                            assert(pat@ =~= chunked_token());
                        }
                        Ok(contains_bytes_ci(&v, &pat))
                    },
                }
            },
        }
    }
}

} // verus!
