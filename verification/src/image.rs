//! The pull-based image source feeding an update, and the progress sink.
//!
//! The source hands out the image as a sequence of byte chunks; an empty
//! chunk signals the end of the stream.  Suspension, transport and buffering
//! are the caller's business: the updater only pulls.

use vstd::prelude::*;
use vstd::slice::slice_subrange;
use vstd::slice::slice_to_vec;

verus! {

/// A byte producer supplying the firmware image, chunk by chunk.
///
/// `E` is the source's error type.  A read hands out a prefix of the bytes
/// that remain; it returns an empty chunk exactly when the stream is
/// exhausted (or nothing was asked for).
pub trait ImageSource<E>: Sized {
    /// The bytes the source has not yet handed out.
    spec fn remaining(&self) -> Seq<u8>;

    /// Pull the next chunk, of at most `max_len` bytes.
    fn read_chunk(&mut self, max_len: usize) -> (r: Result<Vec<u8>, E>)
        ensures
            match r {
                Ok(chunk) => {
                    &&& chunk@.len() <= max_len
                    &&& chunk@.len() <= old(self).remaining().len()
                    &&& chunk@ == old(self).remaining().take(chunk@.len() as int)
                    &&& final(self).remaining() == old(self).remaining().skip(
                        chunk@.len() as int,
                    )
                    &&& (chunk@.len() == 0 ==> old(self).remaining().len() == 0 || max_len == 0)
                    &&& (old(self).remaining().len() == 0 ==> chunk@.len() == 0)
                },
                Err(_) => final(self).remaining() == old(self).remaining(),
            },
    ;
}

/// Receives the cumulative byte count after every buffer write of an update.
pub trait ProgressSink: Sized {
    /// Called inline in the copy loop; must not block indefinitely.
    fn report(&mut self, written: usize);
}

/// A progress sink that remembers every reported count.
pub struct ProgressLog {
    /// The reported cumulative counts, in order.
    pub reports: Vec<usize>,
}

impl ProgressLog {
    /// An empty log.
    pub fn new() -> (r: ProgressLog)
        ensures
            r.reports@.len() == 0,
    {
        ProgressLog { reports: Vec::new() }
    }
}

impl ProgressSink for ProgressLog {
    fn report(&mut self, written: usize) {
        self.reports.push(written);
    }
}

/// The error type of `SliceSource`; no value of it is ever produced.
#[derive(Clone, Copy, Debug, PartialEq, Eq, Structural)]
pub struct NoSourceError;

/// An image source over in-memory bytes; it never fails.
pub struct SliceSource {
    data: Vec<u8>,
    pos: usize,
}

impl SliceSource {
    /// A source that will hand out exactly `data`.
    pub fn new(data: Vec<u8>) -> (s: SliceSource)
        ensures
            s.remaining_spec() == data@,
    {
        let s = SliceSource { data, pos: 0 };
        proof {
            assert(s.remaining_spec() =~= s.data@);
        }
        s
    }

    /// The bytes not yet handed out.
    pub closed spec fn remaining_spec(&self) -> Seq<u8> {
        if self.pos <= self.data@.len() {
            self.data@.skip(self.pos as int)
        } else {
            Seq::empty()
        }
    }
}

impl ImageSource<NoSourceError> for SliceSource {
    closed spec fn remaining(&self) -> Seq<u8> {
        self.remaining_spec()
    }

    fn read_chunk(&mut self, max_len: usize) -> (r: Result<Vec<u8>, NoSourceError>) {
        if self.pos > self.data.len() {
            return Ok(Vec::new());
        }
        let avail = self.data.len() - self.pos;
        let n = if max_len < avail {
            max_len
        } else {
            avail
        };
        let chunk = slice_to_vec(slice_subrange(self.data.as_slice(), self.pos, self.pos + n));
        proof {
            assert(chunk@ =~= self.remaining_spec().take(n as int));
            assert(self.data@.skip(self.pos + n) =~= self.remaining_spec().skip(n as int));
        }
        self.pos = self.pos + n;
        Ok(chunk)
    }
}

} // verus!
