//! Form decoding: a content-type-gated wrapper over the same size-limited
//! accumulation as the whole-body collector, followed by charset decoding
//! and form deserialization into ordered key/value pairs.

use vstd::prelude::*;
use crate::body::{drain, DrainOut};
use crate::charset::{charset_name_of, Charset};
use crate::errors::{PayloadError, UrlencodedError};
use crate::headers::{get_header, lookup_first};
use crate::media::str_eq_ci;
use crate::message::{charset_label_of, charset_matches, content_type_of, HttpMessage};
use crate::payload::{Payload, SourceEvent};
use crate::text::{content_length_of, eq_ci, parse_content_length};

verus! {

/// What the form deserializer makes of percent-encoded text.
pub uninterp spec fn form_pairs_of_str(s: Seq<char>) -> Option<Seq<(Seq<char>, Seq<char>)>>;

/// Relies on `serde_urlencoded::from_str`: whether text deserializes, and
/// to which pairs, depends on the text alone.
#[verifier::external_body]
fn parse_form_str(s: &str) -> (r: Option<Vec<(String, String)>>)
    ensures
        r is Some <==> form_pairs_of_str(s@) is Some,
        r matches Some(v) ==> Some(pair_views(v@)) == form_pairs_of_str(s@),
{
    match serde_urlencoded::from_str::<Vec<(String, String)>>(s) {
        Ok(v) => Some(v),
        Err(_) => None,
    }
}

/// The pairs a decoded form spells, as character sequences.
pub open spec fn pair_views(v: Seq<(String, String)>) -> Seq<(Seq<char>, Seq<char>)> {
    v.map_values(|p: (String, String)| (p.0@, p.1@))
}

/// The form content type, as bytes spell it.
pub open spec fn form_token() -> Seq<char> {
    "application/x-www-form-urlencoded"@
}

/// The error a form decoder's construction defers, if any: a content type
/// other than the form one, or an unresolvable charset, defers
/// `ContentType`; then an unparsable `Content-Length` defers
/// `UnknownLength`.
pub open spec fn form_deferred(entries: Seq<(Seq<char>, Seq<u8>)>) -> Option<UrlencodedError> {
    if !eq_ci(content_type_of(entries), form_token()) {
        Some(UrlencodedError::ContentType)
    } else {
        match charset_label_of(entries) {
            Err(_) => Some(UrlencodedError::ContentType),
            Ok(lab) => if (lab matches Some(l) && charset_name_of(l) is None) {
                Some(UrlencodedError::ContentType)
            } else {
                match lookup_first(entries, "content-length"@) {
                    None => None,
                    Some(v) => if content_length_of(v) is None {
                        Some(UrlencodedError::UnknownLength)
                    } else {
                        None
                    },
                }
            },
        }
    }
}

/// What decoding a finished form body yields: the charset's strict
/// decoding — plain UTF-8 validation on the fast path — deserialized as
/// text; nothing when either step refuses.
pub open spec fn form_decode(cs: Charset, b: Seq<u8>) -> Option<Seq<(Seq<char>, Seq<char>)>> {
    match cs.decode_spec(b) {
        None => None,
        Some(s) => form_pairs_of_str(s),
    }
}

/// Outcome of one demand on a form decoder.
#[derive(Debug, PartialEq, Eq)]
pub enum FormPoll {
    /// The decoded pairs, delivered exactly once.
    Ready(Vec<(String, String)>),
    /// The source has nothing yet; demand again later.
    Pending,
    /// Terminal failure; the form cannot be delivered.
    Failed(UrlencodedError),
}

/// What a form decoder's next demand works from.
pub ghost struct FormState {
    pub limit: nat,
    pub declared: Option<usize>,
    pub deferred: Option<UrlencodedError>,
    pub chunks: Seq<Seq<u8>>,
    pub eof: bool,
    pub failed: bool,
    pub buffered: Seq<u8>,
    pub cs: Charset,
}

/// The declared length, when present, is within the limit.
pub open spec fn form_declared_fits(st: FormState) -> bool {
    match st.declared {
        None => true,
        Some(l) => l <= st.limit,
    }
}

/// A form body being accumulated and decoded from a claimed chunk source.
pub struct UrlEncoded {
    stream: Payload,
    limit: usize,
    length: Option<usize>,
    charset: Charset,
    err: Option<UrlencodedError>,
    buff: Vec<u8>,
}

impl UrlEncoded {
    /// Everything the next demand depends on.
    pub closed spec fn state(self) -> FormState {
        FormState {
            limit: self.limit as nat,
            declared: self.length,
            deferred: self.err,
            chunks: self.stream.pending(),
            eof: self.stream.at_eof(),
            failed: self.stream.failed(),
            buffered: self.buff@,
            cs: self.charset,
        }
    }

    /// Builds a form decoder for the message's body. Its preconditions —
    /// form content type, resolvable charset, parsable `Content-Length` —
    /// are inspected at once, but a failure is only recorded, surfacing on
    /// the first demand.
    pub fn new(req: &mut HttpMessage) -> (r: UrlEncoded)
        ensures
            final(req).entries() == old(req).entries(),
            final(req).jar() == old(req).jar(),
            r.state().limit == 262144,
            r.state().buffered == Seq::<u8>::empty(),
            match form_deferred(old(req).entries()) {
                Some(e) => r.state().deferred == Some(e)
                    && final(req).body_source() == old(req).body_source()
                    && r.state().chunks == Seq::<Seq<u8>>::empty() && r.state().eof
                    && !r.state().failed,
                None => r.state().deferred is None && final(req).body_source() is None
                    && charset_matches(r.state().cs, old(req).entries())
                    && r.state().declared == declared_length(old(req).entries())
                    && form_taken_from(r, *old(req)),
            },
    {
        let ct = req.content_type();
        if !str_eq_ci(ct.as_str(), "application/x-www-form-urlencoded") {
            return Self::err(UrlencodedError::ContentType);
        }
        let charset = match req.encoding() {
            Ok(cs) => cs,
            Err(_) => {
                return Self::err(UrlencodedError::ContentType);
            },
        };
        let mut length: Option<usize> = None;
        match get_header(req.headers(), "content-length") {
            None => {},
            Some(v) => {
                match parse_content_length(&v) {
                    Some(n) => {
                        length = Some(n);
                    },
                    None => {
                        return Self::err(UrlencodedError::UnknownLength);
                    },
                }
            },
        }
        UrlEncoded {
            stream: req.take_payload(),
            limit: 262144,
            length,
            charset,
            err: None,
            buff: Vec::new(),
        }
    }

    /// A decoder poisoned at construction: its one demand yields `e`.
    fn err(e: UrlencodedError) -> (r: UrlEncoded)
        ensures
            r.state() == (FormState {
                limit: 262144 as nat,
                declared: None,
                deferred: Some(e),
                chunks: Seq::empty(),
                eof: true,
                failed: false,
                buffered: Seq::empty(),
                cs: r.state().cs,
            }),
    {
        let r = UrlEncoded {
            stream: Payload::empty(),
            limit: 262144,
            length: None,
            charset: Charset::utf8(),
            err: Some(e),
            buff: Vec::new(),
        };
        proof {
            assert(r.state().chunks =~= Seq::<Seq<u8>>::empty());
            assert(r.state().buffered =~= Seq::<u8>::empty());
        }
        r
    }

    /// Replaces the default 262,144-byte limit; effective for demands that
    /// follow.
    pub fn limit(self, limit: usize) -> (r: UrlEncoded)
        ensures
            r.state() == (FormState { limit: limit as nat, ..self.state() }),
    {
        UrlEncoded { limit, ..self }
    }

    /// The transport's side of a demand: queues one more chunk behind those
    /// already waiting.
    pub fn feed_data(&mut self, data: Vec<u8>)
        ensures
            final(self).state() == (FormState {
                chunks: old(self).state().chunks.push(data@),
                ..old(self).state()
            }),
    {
        self.stream.feed_data(data);
    }

    /// Marks the source complete: after the queued chunks, end-of-data.
    pub fn feed_eof(&mut self)
        ensures
            final(self).state() == (FormState { eof: true, ..old(self).state() }),
    {
        self.stream.feed_eof();
    }

    /// Marks the source failed: after the queued chunks, an error.
    pub fn feed_error(&mut self)
        ensures
            final(self).state() == (FormState { failed: true, ..old(self).state() }),
    {
        self.stream.feed_error();
    }

    /// One demand. A deferred error surfaces first, with nothing consumed;
    /// then a declared length beyond the limit fails `Overflow`; otherwise
    /// chunks are accumulated as for a whole body, and a finished body is
    /// decoded with the negotiated charset and deserialized, failing
    /// `Parse` when either step refuses.
    pub fn poll(&mut self) -> (r: FormPoll)
        ensures
            ({
                let st = old(self).state();
                &&& (st.deferred matches Some(e) ==> r == FormPoll::Failed(e) && final(self).state()
                    == (FormState { deferred: None, ..st }))
                &&& (st.deferred is None && (st.declared matches Some(l) && l > st.limit)
                    ==> r == FormPoll::Failed(UrlencodedError::Overflow) && final(self).state()
                        == (FormState { declared: None, ..st }))
                &&& (st.deferred is None && form_declared_fits(st)
                    ==> match drain(st.chunks, st.buffered, st.limit, st.eof, st.failed) {
                        DrainOut::Done(b) => match form_decode(st.cs, b) {
                            None => r == FormPoll::Failed(UrlencodedError::Parse),
                            Some(ps) => r matches FormPoll::Ready(v) && pair_views(v@) == ps,
                        },
                        DrainOut::More(b) => r is Pending && final(self).state() == (FormState {
                            declared: None,
                            deferred: None,
                            chunks: Seq::empty(),
                            buffered: b,
                            ..st
                        }),
                        DrainOut::Overflow => r == FormPoll::Failed(UrlencodedError::Overflow),
                        DrainOut::Failed => r == FormPoll::Failed(UrlencodedError::Payload(PayloadError::SourceError)),
                    })
            }),
    {
        match self.err {
            Some(e) => {
                self.err = None;
                return FormPoll::Failed(e);
            },
            None => {},
        }
        match self.length {
            Some(l) => {
                self.length = None;
                if l > self.limit {
                    return FormPoll::Failed(UrlencodedError::Overflow);
                }
            },
            None => {},
        }
        let ghost st = old(self).state();
        let ghost target = drain(st.chunks, st.buffered, st.limit, st.eof, st.failed);
        loop
            invariant
                st == old(self).state(),
                st.deferred is None,
                form_declared_fits(st),
                target == drain(st.chunks, st.buffered, st.limit, st.eof, st.failed),
                self.err is None,
                self.length is None,
                self.limit as nat == st.limit,
                self.charset == st.cs,
                self.stream.at_eof() == st.eof,
                self.stream.failed() == st.failed,
                drain(self.stream.pending(), self.buff@, st.limit, st.eof, st.failed) == target,
            decreases self.stream.pending().len(),
        {
            match self.stream.next_event() {
                SourceEvent::Data(c) => {
                    match self.buff.len().checked_add(c.len()) {
                        None => {
                            return FormPoll::Failed(UrlencodedError::Overflow);
                        },
                        Some(s) => {
                            if s > self.limit {
                                return FormPoll::Failed(UrlencodedError::Overflow);
                            }
                            let mut c = c;
                            self.buff.append(&mut c);
                        },
                    }
                },
                SourceEvent::Pending => {
                    proof {
                        assert(self.stream.pending() =~= Seq::<Seq<u8>>::empty());
                    }
                    return FormPoll::Pending;
                },
                SourceEvent::End => {
                    match self.charset.decode(&self.buff) {
                        None => {
                            return FormPoll::Failed(UrlencodedError::Parse);
                        },
                        Some(s) => {
                            match parse_form_str(s.as_str()) {
                                None => {
                                    return FormPoll::Failed(UrlencodedError::Parse);
                                },
                                Some(v) => {
                                    return FormPoll::Ready(v);
                                },
                            }
                        },
                    }
                },
                SourceEvent::Failure => {
                    return FormPoll::Failed(UrlencodedError::Payload(PayloadError::SourceError));
                },
            }
        }
    }
}

/// What `Content-Length` declares, when it parses.
pub open spec fn declared_length(entries: Seq<(Seq<char>, Seq<u8>)>) -> Option<usize> {
    match lookup_first(entries, "content-length"@) {
        None => None,
        Some(v) => content_length_of(v),
    }
}

/// The decoder holds what was the message's source.
pub open spec fn form_taken_from(r: UrlEncoded, m: HttpMessage) -> bool {
    match m.body_source() {
        Some(p) => r.state().chunks == p.pending() && r.state().eof == p.at_eof()
            && r.state().failed == p.failed(),
        None => r.state().chunks == Seq::<Seq<u8>>::empty() && r.state().eof
            && !r.state().failed,
    }
}

impl HttpMessage {
    /// Claims the body and decodes it as a percent-encoded form.
    pub fn urlencoded(&mut self) -> (r: UrlEncoded)
        ensures
            final(self).entries() == old(self).entries(),
            final(self).jar() == old(self).jar(),
            r.state().limit == 262144,
            r.state().buffered == Seq::<u8>::empty(),
            match form_deferred(old(self).entries()) {
                Some(e) => r.state().deferred == Some(e)
                    && final(self).body_source() == old(self).body_source()
                    && r.state().chunks == Seq::<Seq<u8>>::empty() && r.state().eof
                    && !r.state().failed,
                None => r.state().deferred is None && final(self).body_source() is None
                    && charset_matches(r.state().cs, old(self).entries())
                    && r.state().declared == declared_length(old(self).entries())
                    && form_taken_from(r, *old(self)),
            },
    {
        UrlEncoded::new(self)
    }
}

} // verus!
