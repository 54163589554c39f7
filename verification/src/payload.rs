//! The demand-driven source of raw byte chunks.
//!
//! A `Payload` is a queue of chunks fed from outside (a transport adapter, a
//! test), closed by an end-of-data or an error mark. Each demand hands out
//! the next queued chunk, or reports not-ready, end, or failure. A message
//! owns one `Payload`, claimed at most once.

use vstd::prelude::*;

verus! {

/// What one demand on a chunk source yields.
#[derive(Debug, PartialEq, Eq)]
pub enum SourceEvent {
    /// The next chunk of the body, in transport order.
    Data(Vec<u8>),
    /// Nothing to deliver yet; ask again later.
    Pending,
    /// The body is complete; no further data will come.
    End,
    /// The source failed; the body cannot be completed.
    Failure,
}

/// A queue of byte chunks with an end-of-data and an error mark.
pub struct Payload {
    chunks: Vec<Vec<u8>>,
    eof: bool,
    error: bool,
}

impl Payload {
    /// The chunks still queued, oldest first.
    pub closed spec fn pending(self) -> Seq<Seq<u8>> {
        self.chunks@.map_values(|c: Vec<u8>| c@)
    }

    /// Whether end-of-data has been fed.
    pub closed spec fn at_eof(self) -> bool {
        self.eof
    }

    /// Whether a source error has been fed.
    pub closed spec fn failed(self) -> bool {
        self.error
    }

    /// An open source: nothing queued, more may come.
    pub fn new() -> (r: Payload)
        ensures
            r.pending() == Seq::<Seq<u8>>::empty(),
            !r.at_eof(),
            !r.failed(),
    {
        let r = Payload { chunks: Vec::new(), eof: false, error: false };
        proof {
            assert(r.pending() =~= Seq::<Seq<u8>>::empty());
        }
        r
    }

    /// An exhausted source: nothing queued, already at end-of-data.
    /// This is what remains once a body has been claimed.
    pub fn empty() -> (r: Payload)
        ensures
            r.pending() == Seq::<Seq<u8>>::empty(),
            r.at_eof(),
            !r.failed(),
    {
        let r = Payload { chunks: Vec::new(), eof: true, error: false };
        proof {
            assert(r.pending() =~= Seq::<Seq<u8>>::empty());
        }
        r
    }

    /// Queues one chunk after the ones already waiting.
    pub fn feed_data(&mut self, data: Vec<u8>)
        ensures
            final(self).pending() == old(self).pending().push(data@),
            final(self).at_eof() == old(self).at_eof(),
            final(self).failed() == old(self).failed(),
    {
        self.chunks.push(data);
        proof {
            assert(final(self).pending() =~= old(self).pending().push(data@));
        }
    }

    /// Marks the source as complete: after the queued chunks, end-of-data.
    pub fn feed_eof(&mut self)
        ensures
            final(self).pending() == old(self).pending(),
            final(self).at_eof(),
            final(self).failed() == old(self).failed(),
    {
        self.eof = true;
    }

    /// Marks the source as failed: after the queued chunks, an error.
    pub fn feed_error(&mut self)
        ensures
            final(self).pending() == old(self).pending(),
            final(self).at_eof() == old(self).at_eof(),
            final(self).failed(),
    {
        self.error = true;
    }

    /// One demand: the oldest queued chunk if any; otherwise the error mark,
    /// then the end mark, then not-ready.
    pub fn next_event(&mut self) -> (r: SourceEvent)
        ensures
            old(self).pending().len() > 0 ==> (r matches SourceEvent::Data(c)
                && c@ == old(self).pending()[0]
                && final(self).pending() == old(self).pending().drop_first()),
            old(self).pending().len() == 0 ==> final(self).pending() == old(self).pending()
                && (r matches SourceEvent::Data(c) <==> false),
            old(self).pending().len() == 0 && old(self).failed() ==> r is Failure,
            old(self).pending().len() == 0 && !old(self).failed() && old(self).at_eof() ==> r is End,
            old(self).pending().len() == 0 && !old(self).failed() && !old(self).at_eof() ==> r is Pending,
            final(self).at_eof() == old(self).at_eof(),
            final(self).failed() == old(self).failed(),
    {
        if self.chunks.len() > 0 {
            let c = self.chunks.remove(0);
            proof {
                assert(final(self).pending() =~= old(self).pending().drop_first());
            }
            SourceEvent::Data(c)
        } else if self.error {
            SourceEvent::Failure
        } else if self.eof {
            SourceEvent::End
        } else {
            SourceEvent::Pending
        }
    }
}

} // verus!
