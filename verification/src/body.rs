//! Whole-body accumulation: a size-bounded complete byte buffer, pulled
//! chunk by chunk from the message's claimed source.
//!
//! Construction inspects `Content-Length` but never fails outright: a bad
//! declaration is recorded and surfaces on the first demand, so the limit
//! may still be changed in between.

use vstd::prelude::*;
use crate::errors::PayloadError;
use crate::headers::{get_header, lookup_first};
use crate::message::HttpMessage;
use crate::payload::{Payload, SourceEvent};
use crate::text::{content_length_of, parse_content_length};

verus! {

/// Outcome of one demand on a body collector.
#[derive(Debug, PartialEq, Eq)]
pub enum BodyPoll {
    /// The complete body, delivered exactly once.
    Ready(Vec<u8>),
    /// The source has nothing yet; demand again later.
    Pending,
    /// Terminal failure; the body cannot be delivered.
    Failed(PayloadError),
}

/// What draining a source into a buffer under a limit yields.
pub ghost enum DrainOut {
    /// End of data: the finished buffer.
    Done(Seq<u8>),
    /// Source not ready: the buffer so far.
    More(Seq<u8>),
    /// Appending a chunk would push the buffer past the limit.
    Overflow,
    /// The source failed.
    Failed,
}

/// Drains queued chunks into `acc` in order, failing the step that would
/// exceed `limit`; at the queue's end the error mark, then the end mark,
/// then not-ready decide.
pub open spec fn drain(chunks: Seq<Seq<u8>>, acc: Seq<u8>, limit: nat, eof: bool, failed: bool) -> DrainOut
    decreases chunks.len(),
{
    if chunks.len() > 0 {
        if acc.len() + chunks[0].len() > limit {
            DrainOut::Overflow
        } else {
            drain(chunks.drop_first(), acc + chunks[0], limit, eof, failed)
        }
    } else if failed {
        DrainOut::Failed
    } else if eof {
        DrainOut::Done(acc)
    } else {
        DrainOut::More(acc)
    }
}

/// A body that completes is exactly the bytes already buffered followed by
/// every queued chunk, in order: accumulation loses, duplicates and
/// reorders nothing, and what comes out never exceeds the limit.
pub proof fn lemma_drain_preserves_bytes(
    chunks: Seq<Seq<u8>>,
    acc: Seq<u8>,
    limit: nat,
    eof: bool,
    failed: bool,
)
    requires
        acc.len() <= limit,
        drain(chunks, acc, limit, eof, failed) matches DrainOut::Done(b),
    ensures
        ({
            let b = drain(chunks, acc, limit, eof, failed)->Done_0;
            b == acc + chunks.flatten() && b.len() <= limit
        }),
    decreases chunks.len(),
{
    if chunks.len() == 0 {
        assert(chunks.flatten() =~= Seq::<u8>::empty());
        assert(acc + chunks.flatten() =~= acc);
    } else {
        lemma_drain_preserves_bytes(chunks.drop_first(), acc + chunks[0], limit, eof, failed);
        assert(chunks.first() == chunks[0]);
        assert(chunks.flatten() == chunks[0] + chunks.drop_first().flatten());
        assert((acc + chunks[0]) + chunks.drop_first().flatten() =~= acc + (chunks[0]
            + chunks.drop_first().flatten()));
    }
}

/// The declared length, when present, is within the limit.
pub open spec fn declared_fits(st: CollectorState) -> bool {
    match st.declared {
        None => true,
        Some(l) => l <= st.limit,
    }
}

/// What a collector's next demand works from.
pub ghost struct CollectorState {
    pub limit: nat,
    pub declared: Option<usize>,
    pub deferred: Option<PayloadError>,
    pub chunks: Seq<Seq<u8>>,
    pub eof: bool,
    pub failed: bool,
    pub buffered: Seq<u8>,
}

/// A complete body being accumulated from a claimed chunk source.
pub struct MessageBody {
    limit: usize,
    length: Option<usize>,
    stream: Payload,
    err: Option<PayloadError>,
    buff: Vec<u8>,
}

impl MessageBody {
    /// Everything the next demand depends on.
    pub closed spec fn state(self) -> CollectorState {
        CollectorState {
            limit: self.limit as nat,
            declared: self.length,
            deferred: self.err,
            chunks: self.stream.pending(),
            eof: self.stream.at_eof(),
            failed: self.stream.failed(),
            buffered: self.buff@,
        }
    }

    /// Builds a collector for the message's body: claims the source, records
    /// an unparsable `Content-Length` as a deferred `UnknownLength`, and
    /// keeps a parsed one for the first demand's pre-check.
    pub fn new(req: &mut HttpMessage) -> (r: MessageBody)
        ensures
            final(req).entries() == old(req).entries(),
            final(req).jar() == old(req).jar(),
            r.state().limit == 262144,
            r.state().buffered == Seq::<u8>::empty(),
            match lookup_first(old(req).entries(), "content-length"@) {
                None => r.state().deferred is None && r.state().declared is None
                    && final(req).body_source() is None && taken_from(r, *old(req)),
                Some(v) => match content_length_of(v) {
                    Some(n) => r.state().deferred is None && r.state().declared == Some(n)
                        && final(req).body_source() is None && taken_from(r, *old(req)),
                    None => r.state().deferred == Some(PayloadError::UnknownLength)
                        && final(req).body_source() == old(req).body_source()
                        && r.state().chunks == Seq::<Seq<u8>>::empty() && r.state().eof
                        && !r.state().failed,
                },
            },
    {
        let mut length: Option<usize> = None;
        match get_header(req.headers(), "content-length") {
            None => {},
            Some(v) => {
                match parse_content_length(&v) {
                    Some(n) => {
                        length = Some(n);
                    },
                    None => {
                        return MessageBody {
                            stream: Payload::empty(),
                            limit: 262144,
                            length: None,
                            err: Some(PayloadError::UnknownLength),
                            buff: Vec::new(),
                        };
                    },
                }
            },
        }
        MessageBody {
            stream: req.take_payload(),
            limit: 262144,
            length,
            err: None,
            buff: Vec::new(),
        }
    }

    /// Replaces the default 262,144-byte limit; effective for demands that
    /// follow.
    pub fn limit(self, limit: usize) -> (r: MessageBody)
        ensures
            r.state() == (CollectorState { limit: limit as nat, ..self.state() }),
    {
        MessageBody { limit, ..self }
    }

    /// The transport's side of a demand: queues one more chunk behind those
    /// already waiting.
    pub fn feed_data(&mut self, data: Vec<u8>)
        ensures
            final(self).state() == (CollectorState {
                chunks: old(self).state().chunks.push(data@),
                ..old(self).state()
            }),
    {
        self.stream.feed_data(data);
    }

    /// Marks the source complete: after the queued chunks, end-of-data.
    pub fn feed_eof(&mut self)
        ensures
            final(self).state() == (CollectorState { eof: true, ..old(self).state() }),
    {
        self.stream.feed_eof();
    }

    /// Marks the source failed: after the queued chunks, an error.
    pub fn feed_error(&mut self)
        ensures
            final(self).state() == (CollectorState { failed: true, ..old(self).state() }),
    {
        self.stream.feed_error();
    }

    /// One demand. A deferred error surfaces first, with nothing consumed;
    /// then a declared length beyond the limit fails `Overflow` before any
    /// byte is read; otherwise chunks are pulled and appended until the
    /// source runs dry, overflows the limit, ends, or fails.
    pub fn poll(&mut self) -> (r: BodyPoll)
        ensures
            ({
                let st = old(self).state();
                &&& (st.deferred matches Some(e) ==> r == BodyPoll::Failed(e) && final(self).state()
                    == (CollectorState { deferred: None, ..st }))
                &&& (st.deferred is None && (st.declared matches Some(l) && l > st.limit)
                    ==> r == BodyPoll::Failed(PayloadError::Overflow) && final(self).state()
                        == (CollectorState { declared: None, ..st }))
                &&& (st.deferred is None && declared_fits(st)
                    ==> match drain(st.chunks, st.buffered, st.limit, st.eof, st.failed) {
                        DrainOut::Done(b) => r matches BodyPoll::Ready(v) && v@ == b,
                        DrainOut::More(b) => r is Pending && final(self).state()
                            == (CollectorState {
                            declared: None,
                            deferred: None,
                            chunks: Seq::empty(),
                            buffered: b,
                            ..st
                        }),
                        DrainOut::Overflow => r == BodyPoll::Failed(PayloadError::Overflow),
                        DrainOut::Failed => r == BodyPoll::Failed(PayloadError::SourceError),
                    })
            }),
    {
        match self.err {
            Some(e) => {
                self.err = None;
                return BodyPoll::Failed(e);
            },
            None => {},
        }
        match self.length {
            Some(l) => {
                self.length = None;
                if l > self.limit {
                    return BodyPoll::Failed(PayloadError::Overflow);
                }
            },
            None => {},
        }
        let ghost st = old(self).state();
        let ghost target = drain(st.chunks, st.buffered, st.limit, st.eof, st.failed);
        loop
            invariant
                st == old(self).state(),
                st.deferred is None,
                declared_fits(st),
                target == drain(st.chunks, st.buffered, st.limit, st.eof, st.failed),
                self.err is None,
                self.length is None,
                self.limit as nat == st.limit,
                self.stream.at_eof() == st.eof,
                self.stream.failed() == st.failed,
                drain(self.stream.pending(), self.buff@, st.limit, st.eof, st.failed) == target,
            decreases self.stream.pending().len(),
        {
            match self.stream.next_event() {
                SourceEvent::Data(c) => {
                    match self.buff.len().checked_add(c.len()) {
                        None => {
                            return BodyPoll::Failed(PayloadError::Overflow);
                        },
                        Some(s) => {
                            if s > self.limit {
                                return BodyPoll::Failed(PayloadError::Overflow);
                            }
                            let mut c = c;
                            self.buff.append(&mut c);
                        },
                    }
                },
                SourceEvent::Pending => {
                    proof {
                        assert(self.stream.pending() =~= Seq::<Seq<u8>>::empty());
                    }
                    return BodyPoll::Pending;
                },
                SourceEvent::End => {
                    let mut b: Vec<u8> = Vec::new();
                    core::mem::swap(&mut b, &mut self.buff);
                    return BodyPoll::Ready(b);
                },
                SourceEvent::Failure => {
                    return BodyPoll::Failed(PayloadError::SourceError);
                },
            }
        }
    }
}

/// The collector holds what was the message's source.
pub open spec fn taken_from(r: MessageBody, m: HttpMessage) -> bool {
    match m.body_source() {
        Some(p) => r.state().chunks == p.pending() && r.state().eof == p.at_eof()
            && r.state().failed == p.failed(),
        None => r.state().chunks == Seq::<Seq<u8>>::empty() && r.state().eof
            && !r.state().failed,
    }
}

impl HttpMessage {
    /// Claims the body and collects it whole, within the default limit.
    pub fn body(&mut self) -> (r: MessageBody)
        ensures
            final(self).entries() == old(self).entries(),
            final(self).jar() == old(self).jar(),
            r.state().limit == 262144,
            r.state().buffered == Seq::<u8>::empty(),
            match lookup_first(old(self).entries(), "content-length"@) {
                None => r.state().deferred is None && r.state().declared is None
                    && final(self).body_source() is None && taken_from(r, *old(self)),
                Some(v) => match content_length_of(v) {
                    Some(n) => r.state().deferred is None && r.state().declared == Some(n)
                        && final(self).body_source() is None && taken_from(r, *old(self)),
                    None => r.state().deferred == Some(PayloadError::UnknownLength)
                        && final(self).body_source() == old(self).body_source()
                        && r.state().chunks == Seq::<Seq<u8>>::empty() && r.state().eof
                        && !r.state().failed,
                },
            },
    {
        MessageBody::new(self)
    }
}

} // verus!
