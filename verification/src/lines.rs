//! Line-oriented incremental decoding: a finite, non-restartable sequence
//! of text lines pulled from the message's claimed source. Every line but
//! possibly the last keeps its trailing newline.
//!
//! The per-line limit is checked against the newline's offset within the
//! segment currently scanned — the residual buffer or the freshly arrived
//! chunk — not against a line's accumulated length across chunks; the
//! residual is not cleared on a limit failure. Both follow the demand
//! algorithm this module states as `lines_step`.

use vstd::prelude::*;
use vstd::utf8::{decode_first_scalar, decode_utf8, encode_utf8, is_continuation_byte,
    length_of_first_scalar, pop_first_scalar, valid_utf8};
use crate::charset::{charset_name_of, Charset};
use crate::errors::{ContentTypeError, ReadlinesError};
use crate::message::{charset_label_of, charset_matches, HttpMessage};
use crate::payload::{Payload, SourceEvent};
use crate::text::{find_byte, lemma_find_byte_range, subvec, find_byte_in};

verus! {

/// Outcome of one demand on a line decoder.
#[derive(Debug, PartialEq, Eq)]
pub enum LinePoll {
    /// The next decoded line.
    Line(String),
    /// Nothing to deliver yet; demand again later.
    Pending,
    /// The sequence has ended; no line follows.
    Finished,
    /// Terminal failure.
    Failed(ReadlinesError),
}

/// A demand's outcome, mathematically.
pub ghost enum LineOut {
    Line(Seq<char>),
    Pending,
    Finished,
    Failed(ReadlinesError),
}

/// The outcome a poll result spells.
pub open spec fn out_view(r: LinePoll) -> LineOut {
    match r {
        LinePoll::Line(s) => LineOut::Line(s@),
        LinePoll::Pending => LineOut::Pending,
        LinePoll::Finished => LineOut::Finished,
        LinePoll::Failed(e) => LineOut::Failed(e),
    }
}

/// What a line decoder's next demand works from.
pub ghost struct LinesState {
    pub chunks: Seq<Seq<u8>>,
    pub eof: bool,
    pub failed: bool,
    pub buff: Seq<u8>,
    pub checked: bool,
    pub limit: nat,
    pub cs: Charset,
    pub err: Option<ReadlinesError>,
}

/// One demand, exactly as the decoder performs it.
///
/// A stored error surfaces first. Then, unless the residual is marked
/// scanned, a newline in it yields that line (limit first, then decode,
/// the line's bytes leaving the residual either way). Otherwise the source
/// decides: a chunk with a newline yields its prefix as the line — checked
/// against the limit within that chunk alone — and queues the remainder
/// behind the residual, marked unscanned; a chunk without one joins the
/// residual, marked scanned, and reports not-ready; end-of-data yields the
/// residual as a final unterminated line, the sequence ending after it; a
/// source failure is terminal.
pub open spec fn lines_step(st: LinesState) -> (LinesState, LineOut) {
    match st.err {
        Some(e) => (LinesState { err: None, ..st }, LineOut::Failed(e)),
        None => if st.checked {
            lines_step_pull(st)
        } else {
            match find_byte(st.buff, 10) {
                None => lines_step_pull(st),
                Some(i) => if i + 1 > st.limit {
                    (st, LineOut::Failed(ReadlinesError::LimitOverflow))
                } else {
                    let rest = LinesState { buff: st.buff.skip(i + 1), ..st };
                    match st.cs.decode_spec(st.buff.take(i + 1)) {
                        None => (rest, LineOut::Failed(ReadlinesError::EncodingError)),
                        Some(s) => (rest, LineOut::Line(s)),
                    }
                },
            }
        },
    }
}

/// The source's part of a demand, once the residual is known
/// boundary-free and marked scanned.
pub open spec fn lines_step_pull(st: LinesState) -> (LinesState, LineOut) {
    let scanned = LinesState { checked: true, ..st };
    if st.chunks.len() > 0 {
        let c = st.chunks[0];
        let pulled = LinesState { chunks: st.chunks.drop_first(), ..scanned };
        match find_byte(c, 10) {
            Some(i) => if i + 1 > st.limit {
                (pulled, LineOut::Failed(ReadlinesError::LimitOverflow))
            } else {
                match st.cs.decode_spec(c.take(i + 1)) {
                    None => (pulled, LineOut::Failed(ReadlinesError::EncodingError)),
                    Some(s) => (
                        LinesState { buff: st.buff + c.skip(i + 1), checked: false, ..pulled },
                        LineOut::Line(s),
                    ),
                }
            },
            None => (LinesState { buff: st.buff + c, ..pulled }, LineOut::Pending),
        }
    } else if st.failed {
        (scanned, LineOut::Failed(ReadlinesError::SourceError))
    } else if !st.eof {
        (scanned, LineOut::Pending)
    } else if st.buff.len() == 0 {
        (scanned, LineOut::Finished)
    } else if st.buff.len() > st.limit {
        (scanned, LineOut::Failed(ReadlinesError::LimitOverflow))
    } else {
        match st.cs.decode_spec(st.buff) {
            None => (scanned, LineOut::Failed(ReadlinesError::EncodingError)),
            Some(s) => (LinesState { buff: Seq::empty(), ..scanned }, LineOut::Line(s)),
        }
    }
}

/// A body's decomposition into lines: one segment up to and including each
/// newline, then a final unterminated segment if bytes remain.
pub open spec fn line_split(b: Seq<u8>) -> Seq<Seq<u8>>
    decreases b.len(),
    via line_split_decreases
{
    if b.len() == 0 {
        Seq::empty()
    } else {
        match find_byte(b, 10) {
            Some(i) => seq![b.take(i + 1)] + line_split(b.skip(i + 1)),
            None => seq![b],
        }
    }
}

#[via_fn]
proof fn line_split_decreases(b: Seq<u8>) {
    lemma_find_byte_range(b, 10);
}

/// Splitting a body into lines loses, duplicates and reorders nothing: the
/// segments concatenate back to the original byte sequence, exactly.
pub proof fn lemma_lines_round_trip(b: Seq<u8>)
    ensures
        line_split(b).flatten() == b,
    decreases b.len(),
{
    if b.len() == 0 {
        assert(line_split(b).flatten() =~= b);
    } else {
        lemma_find_byte_range(b, 10);
        match find_byte(b, 10) {
            Some(i) => {
                let segs = seq![b.take(i + 1)] + line_split(b.skip(i + 1));
                assert(segs.first() == b.take(i + 1));
                assert(segs.drop_first() =~= line_split(b.skip(i + 1)));
                lemma_lines_round_trip(b.skip(i + 1));
                assert(segs.flatten() == b.take(i + 1) + b.skip(i + 1));
                assert(b.take(i + 1) + b.skip(i + 1) =~= b);
            },
            None => {
                let segs = seq![b];
                assert(segs.first() == b);
                assert(segs.drop_first() =~= Seq::<Seq<u8>>::empty());
                assert(Seq::<Seq<u8>>::empty().flatten() =~= Seq::<u8>::empty());
                assert(segs.flatten() =~= b);
            },
        }
    }
}

/// Every segment of the decomposition but possibly the last ends in the
/// newline byte, and none is empty.
pub proof fn lemma_line_split_terminators(b: Seq<u8>)
    ensures
        forall|k: int| 0 <= k < line_split(b).len() - 1 ==> (#[trigger] line_split(b)[k]).len() > 0
            && line_split(b)[k].last() == 10,
        forall|k: int| 0 <= k < line_split(b).len() ==> (#[trigger] line_split(b)[k]).len() > 0,
    decreases b.len(),
{
    lemma_find_byte_range(b, 10);
    if b.len() > 0 {
        match find_byte(b, 10) {
            Some(i) => {
                let head = b.take(i + 1);
                assert(head.len() == i + 1 && head.last() == b[i]);
                lemma_line_split_terminators(b.skip(i + 1));
                let segs = seq![head] + line_split(b.skip(i + 1));
                assert(forall|k: int| 1 <= k < segs.len() ==> #[trigger] segs[k] == line_split(
                    b.skip(i + 1),
                )[k - 1]);
            },
            None => {},
        }
    }
}

/// A line cut at a newline keeps it: a valid UTF-8 segment whose last byte
/// is the newline decodes to text whose last character is the newline. So,
/// by `lemma_line_split_terminators`, every line the UTF-8 decoder yields
/// for a segment before the last ends in the newline character.
pub proof fn lemma_utf8_line_keeps_newline(seg: Seq<u8>)
    requires
        valid_utf8(seg),
        seg.len() > 0,
        seg.last() == 10,
    ensures
        decode_utf8(seg).len() > 0,
        decode_utf8(seg).last() == '\n',
    decreases seg.len(),
{
    let rest = pop_first_scalar(seg);
    let len = length_of_first_scalar(seg);
    if rest.len() == 0 {
        assert(len == seg.len());
        if len == 1 {
            assert(seg[0] == 10);
            assert(decode_first_scalar(seg) == (10u8 & 0x7f) as u32);
            assert(10u8 & 0x7f == 10u8) by (bit_vector);
            assert(decode_utf8(seg) == seq![(10u32) as char] + decode_utf8(rest));
            assert(decode_utf8(rest) =~= Seq::<char>::empty());
            assert((10u32) as char == '\n');
        } else {
            assert(is_continuation_byte(seg[len - 1]));
            assert(seg[len - 1] == 10);
            assert(false);
        }
    } else {
        assert(rest.last() == seg.last());
        lemma_utf8_line_keeps_newline(rest);
        assert(decode_utf8(seg) == seq![decode_first_scalar(seg) as char] + decode_utf8(rest));
        assert(decode_utf8(seg).last() == decode_utf8(rest).last());
    }
}

/// A decoder draining a body it holds whole — source at end-of-data with
/// nothing queued, the residual newline-free whenever it is marked scanned —
/// peels, with every demand that yields a line, exactly the head of the
/// residual's decomposition: the line is that head segment decoded, and the
/// residual left behind decomposes into the remaining segments. Together
/// with `lemma_lines_round_trip`, the byte segments such a run yields
/// concatenate back to the body it started from.
///
/// A body split across chunks does not always enjoy this: a chunk holding a
/// newline is yielded ahead of a residual left by earlier chunks.
pub proof fn lemma_step_peels_line(st: LinesState)
    requires
        st.err is None,
        st.chunks.len() == 0,
        st.eof,
        !st.failed,
        st.buff.len() > 0,
        st.checked ==> find_byte(st.buff, 10) is None,
    ensures
        ({
            let (st2, out) = lines_step(st);
            out matches LineOut::Line(s) ==> {
                &&& Some(s) == st.cs.decode_spec(line_split(st.buff)[0])
                &&& (st.cs.is_utf8_spec() ==> encode_utf8(s) == line_split(st.buff)[0])
                &&& st.buff == line_split(st.buff)[0] + st2.buff
                &&& line_split(st.buff) == seq![line_split(st.buff)[0]] + line_split(st2.buff)
                &&& st2.err is None && st2.chunks.len() == 0 && st2.eof && !st2.failed
                &&& (st2.checked ==> find_byte(st2.buff, 10) is None)
            }
        }),
{
    lemma_find_byte_range(st.buff, 10);
    let (st2, out) = lines_step(st);
    match find_byte(st.buff, 10) {
        Some(i) => {
            assert(!st.checked);
            if i + 1 <= st.limit && st.cs.decode_spec(st.buff.take(i + 1)) is Some {
                assert(line_split(st.buff) == seq![st.buff.take(i + 1)] + line_split(
                    st.buff.skip(i + 1),
                ));
                assert(line_split(st.buff)[0] == st.buff.take(i + 1));
                assert(st.buff.take(i + 1) + st.buff.skip(i + 1) =~= st.buff);
                if st.cs.is_utf8_spec() {
                    vstd::utf8::decode_utf8_encode_utf8(st.buff.take(i + 1));
                }
            }
        },
        None => {
            if st.buff.len() <= st.limit && st.cs.decode_spec(st.buff) is Some {
                if st.cs.is_utf8_spec() {
                    vstd::utf8::decode_utf8_encode_utf8(st.buff);
                }
                assert(line_split(st.buff) == seq![st.buff]);
                assert(line_split(st.buff)[0] == st.buff);
                assert(st2.buff =~= Seq::<u8>::empty());
                assert(line_split(st2.buff) =~= Seq::<Seq<u8>>::empty());
                assert(seq![st.buff] =~= seq![st.buff] + Seq::<Seq<u8>>::empty());
                assert(st.buff + st2.buff =~= st.buff);
            }
        },
    }
}

/// A decoder that holds its whole remaining body in the residual: the
/// source is at end-of-data with nothing queued, no error is stored, and a
/// residual marked scanned is really newline-free.
pub open spec fn drain_inv(st: LinesState) -> bool {
    &&& st.err is None
    &&& st.chunks.len() == 0
    &&& st.eof
    &&& !st.failed
    &&& (st.checked ==> find_byte(st.buff, 10) is None)
}

/// The lines a draining decoder yields, demand after demand, until the
/// sequence ends or fails.
pub open spec fn run_drain(st: LinesState) -> Seq<Seq<char>>
    decreases st.buff.len(),
    when drain_inv(st)
    via run_drain_decreases
{
    match lines_step(st).1 {
        LineOut::Line(s) => seq![s] + run_drain(lines_step(st).0),
        LineOut::Pending => Seq::empty(),
        LineOut::Finished => Seq::empty(),
        LineOut::Failed(_) => Seq::empty(),
    }
}

#[via_fn]
proof fn run_drain_decreases(st: LinesState) {
    lemma_find_byte_range(st.buff, 10);
    if st.buff.len() > 0 {
        lemma_step_peels_line(st);
    }
}

/// Every segment of the body's decomposition fits the limit and decodes
/// under the charset.
pub open spec fn segments_all_fine(st: LinesState) -> bool {
    forall|k: int| 0 <= k < line_split(st.buff).len()
        ==> (#[trigger] line_split(st.buff)[k]).len() <= st.limit
            && st.cs.decode_spec(line_split(st.buff)[k]) is Some
}

/// A decoder draining a body it holds whole yields one line for each
/// segment of the body's decomposition, in order, each the segment's
/// decoding — nothing lost, nothing invented, nothing reordered.
pub proof fn lemma_run_drains_all_lines(st: LinesState)
    requires
        drain_inv(st),
        segments_all_fine(st),
    ensures
        run_drain(st).len() == line_split(st.buff).len(),
        forall|k: int| 0 <= k < run_drain(st).len()
            ==> Some(#[trigger] run_drain(st)[k]) == st.cs.decode_spec(line_split(st.buff)[k]),
    decreases st.buff.len(),
{
    lemma_find_byte_range(st.buff, 10);
    if st.buff.len() == 0 {
        assert(line_split(st.buff) =~= Seq::<Seq<u8>>::empty());
        assert(lines_step(st).1 is Finished);
    } else {
        let seg = line_split(st.buff)[0];
        assert(line_split(st.buff).len() > 0);
        match find_byte(st.buff, 10) {
            Some(i) => {
                assert(seg == st.buff.take(i + 1));
                assert(seg.len() == i + 1);
            },
            None => {
                assert(seg == st.buff);
            },
        }
        lemma_step_peels_line(st);
        let (st2, out) = lines_step(st);
        assert(out matches LineOut::Line(s) && Some(s) == st.cs.decode_spec(seg)) by {
            assert(seg.len() <= st.limit && st.cs.decode_spec(seg) is Some);
        }
        assert(line_split(st.buff) == seq![seg] + line_split(st2.buff));
        assert forall|k: int| 0 <= k < line_split(st2.buff).len() implies (#[trigger] line_split(
            st2.buff,
        )[k]).len() <= st2.limit && st2.cs.decode_spec(line_split(st2.buff)[k]) is Some by {
            assert(line_split(st2.buff)[k] == line_split(st.buff)[k + 1]);
        }
        lemma_run_drains_all_lines(st2);
        assert(run_drain(st) == seq![out->Line_0] + run_drain(st2));
        assert forall|k: int| 0 <= k < run_drain(st).len() implies Some(
            #[trigger] run_drain(st)[k],
        ) == st.cs.decode_spec(line_split(st.buff)[k]) by {
            if k > 0 {
                assert(run_drain(st)[k] == run_drain(st2)[k - 1]);
                assert(line_split(st.buff)[k] == line_split(st2.buff)[k - 1]);
            }
        }
    }
}

/// Concatenating the lines a UTF-8 decoder yields for a body it holds whole
/// reproduces that body's bytes exactly.
pub proof fn lemma_lines_reproduce_body(st: LinesState)
    requires
        drain_inv(st),
        segments_all_fine(st),
        st.cs.is_utf8_spec(),
    ensures
        run_drain(st).map_values(|s: Seq<char>| encode_utf8(s)).flatten() == st.buff,
{
    lemma_run_drains_all_lines(st);
    let encoded = run_drain(st).map_values(|s: Seq<char>| encode_utf8(s));
    assert forall|k: int| 0 <= k < encoded.len() implies encoded[k] == line_split(st.buff)[k] by {
        assert(Some(run_drain(st)[k]) == st.cs.decode_spec(line_split(st.buff)[k]));
        assert(valid_utf8(line_split(st.buff)[k]));
        vstd::utf8::decode_utf8_encode_utf8(line_split(st.buff)[k]);
    }
    assert(encoded =~= line_split(st.buff));
    lemma_lines_round_trip(st.buff);
}

/// A stream of lines read from a claimed chunk source.
pub struct Readlines {
    stream: Payload,
    buff: Vec<u8>,
    limit: usize,
    checked_buff: bool,
    charset: Charset,
    err: Option<ReadlinesError>,
}

/// A decoder poisoned at construction: nothing buffered, its one demand
/// yielding the stored error.
pub open spec fn poisoned(st: LinesState, e: ReadlinesError) -> bool {
    st.chunks == Seq::<Seq<u8>>::empty() && st.eof && !st.failed && st.buff == Seq::<u8>::empty()
        && st.checked && st.limit == 262144 && st.err == Some(e)
}

/// The decoder holds what was the message's source.
pub open spec fn lines_taken_from(r: Readlines, m: HttpMessage) -> bool {
    match m.body_source() {
        Some(p) => r.state().chunks == p.pending() && r.state().eof == p.at_eof()
            && r.state().failed == p.failed(),
        None => r.state().chunks == Seq::<Seq<u8>>::empty() && r.state().eof
            && !r.state().failed,
    }
}

impl Readlines {
    /// Everything the next demand depends on.
    pub closed spec fn state(self) -> LinesState {
        LinesState {
            chunks: self.stream.pending(),
            eof: self.stream.at_eof(),
            failed: self.stream.failed(),
            buff: self.buff@,
            checked: self.checked_buff,
            limit: self.limit as nat,
            cs: self.charset,
            err: self.err,
        }
    }

    /// Builds a line decoder for the message's body, resolving the charset
    /// eagerly; a failed resolution poisons the decoder, which yields the
    /// wrapped error on its one and only demand.
    pub fn new(req: &mut HttpMessage) -> (r: Readlines)
        ensures
            final(req).entries() == old(req).entries(),
            final(req).jar() == old(req).jar(),
            match charset_label_of(old(req).entries()) {
                Err(e) => poisoned(r.state(), ReadlinesError::ContentType(e))
                    && final(req).body_source() == old(req).body_source(),
                Ok(lab) => if (lab matches Some(l) && charset_name_of(l) is None) {
                    poisoned(r.state(), ReadlinesError::ContentType(ContentTypeError::UnknownEncoding))
                        && final(req).body_source() == old(req).body_source()
                } else {
                    r.state().err is None && r.state().buff == Seq::<u8>::empty()
                        && r.state().checked && r.state().limit == 262144
                        && charset_matches(r.state().cs, old(req).entries())
                        && final(req).body_source() is None && lines_taken_from(r, *old(req))
                },
            },
    {
        let charset = match req.encoding() {
            Ok(cs) => cs,
            Err(e) => {
                let r = Readlines {
                    stream: Payload::empty(),
                    buff: Vec::new(),
                    limit: 262144,
                    checked_buff: true,
                    charset: Charset::utf8(),
                    err: Some(ReadlinesError::ContentType(e)),
                };
                proof {
                    assert(r.state().chunks =~= Seq::<Seq<u8>>::empty());
                    assert(r.state().buff =~= Seq::<u8>::empty());
                }
                return r;
            },
        };
        let r = Readlines {
            stream: req.take_payload(),
            buff: Vec::new(),
            limit: 262144,
            checked_buff: true,
            charset,
            err: None,
        };
        proof {
            assert(r.state().buff =~= Seq::<u8>::empty());
        }
        r
    }

    /// Replaces the default 262,144-byte per-line limit; effective for
    /// demands that follow.
    pub fn limit(self, limit: usize) -> (r: Readlines)
        ensures
            r.state() == (LinesState { limit: limit as nat, ..self.state() }),
    {
        Readlines { limit, ..self }
    }

    /// The transport's side of a demand: queues one more chunk behind those
    /// already waiting.
    pub fn feed_data(&mut self, data: Vec<u8>)
        ensures
            final(self).state() == (LinesState {
                chunks: old(self).state().chunks.push(data@),
                ..old(self).state()
            }),
    {
        self.stream.feed_data(data);
    }

    /// Marks the source complete: after the queued chunks, end-of-data.
    pub fn feed_eof(&mut self)
        ensures
            final(self).state() == (LinesState { eof: true, ..old(self).state() }),
    {
        self.stream.feed_eof();
    }

    /// Marks the source failed: after the queued chunks, an error.
    pub fn feed_error(&mut self)
        ensures
            final(self).state() == (LinesState { failed: true, ..old(self).state() }),
    {
        self.stream.feed_error();
    }

    /// One demand, performing exactly one `lines_step`.
    pub fn poll(&mut self) -> (r: LinePoll)
        ensures
            final(self).state() == lines_step(old(self).state()).0,
            out_view(r) == lines_step(old(self).state()).1,
    {
        match self.err {
            Some(e) => {
                self.err = None;
                return LinePoll::Failed(e);
            },
            None => {},
        }
        if !self.checked_buff {
            proof {
                lemma_find_byte_range(self.buff@, 10);
            }
            match find_byte_in(&self.buff, 10) {
                Some(i) => {
                    if i >= self.limit {
                        return LinePoll::Failed(ReadlinesError::LimitOverflow);
                    }
                    let n = self.buff.len();
                    let line_bytes = subvec(&self.buff, 0, i + 1);
                    let rest = subvec(&self.buff, i + 1, n);
                    self.buff = rest;
                    match self.charset.decode(&line_bytes) {
                        None => {
                            return LinePoll::Failed(ReadlinesError::EncodingError);
                        },
                        Some(s) => {
                            return LinePoll::Line(s);
                        },
                    }
                },
                None => {
                    self.checked_buff = true;
                },
            }
        }
        match self.stream.next_event() {
            SourceEvent::Data(bytes) => {
                proof {
                    lemma_find_byte_range(bytes@, 10);
                }
                match find_byte_in(&bytes, 10) {
                    Some(i) => {
                        if i >= self.limit {
                            return LinePoll::Failed(ReadlinesError::LimitOverflow);
                        }
                        let n = bytes.len();
                        let line_bytes = subvec(&bytes, 0, i + 1);
                        match self.charset.decode(&line_bytes) {
                            None => {
                                return LinePoll::Failed(ReadlinesError::EncodingError);
                            },
                            Some(s) => {
                                let mut rest = subvec(&bytes, i + 1, n);
                                self.buff.append(&mut rest);
                                self.checked_buff = false;
                                return LinePoll::Line(s);
                            },
                        }
                    },
                    None => {
                        let mut b = bytes;
                        self.buff.append(&mut b);
                        return LinePoll::Pending;
                    },
                }
            },
            SourceEvent::Pending => LinePoll::Pending,
            SourceEvent::End => {
                if self.buff.len() == 0 {
                    return LinePoll::Finished;
                }
                if self.buff.len() > self.limit {
                    return LinePoll::Failed(ReadlinesError::LimitOverflow);
                }
                match self.charset.decode(&self.buff) {
                    None => LinePoll::Failed(ReadlinesError::EncodingError),
                    Some(s) => {
                        self.buff = Vec::new();
                        proof {
                            assert(self.buff@ =~= Seq::<u8>::empty());
                        }
                        LinePoll::Line(s)
                    },
                }
            },
            SourceEvent::Failure => LinePoll::Failed(ReadlinesError::SourceError),
        }
    }
}

impl HttpMessage {
    /// Claims the body and reads it as a stream of lines.
    pub fn readlines(&mut self) -> (r: Readlines)
        ensures
            final(self).entries() == old(self).entries(),
            final(self).jar() == old(self).jar(),
            match charset_label_of(old(self).entries()) {
                Err(e) => poisoned(r.state(), ReadlinesError::ContentType(e))
                    && final(self).body_source() == old(self).body_source(),
                Ok(lab) => if (lab matches Some(l) && charset_name_of(l) is None) {
                    poisoned(r.state(), ReadlinesError::ContentType(ContentTypeError::UnknownEncoding))
                        && final(self).body_source() == old(self).body_source()
                } else {
                    r.state().err is None && r.state().buff == Seq::<u8>::empty()
                        && r.state().checked && r.state().limit == 262144
                        && charset_matches(r.state().cs, old(self).entries())
                        && final(self).body_source() is None && lines_taken_from(r, *old(self))
                },
            },
    {
        Readlines::new(self)
    }
}

} // verus!
