//! Non-blocking byte streams, as the framework sees them: a read gives the
//! bytes that were there, a write says how many bytes went out, and either
//! may say that it would block.

use vstd::prelude::*;
use crate::pollable::Poll;
use crate::result::PollResult;

verus! {

/// Why a read or a write did not succeed.
#[derive(Debug, Clone, Copy, PartialEq, Eq, Structural)]
pub enum IoError {
    /// Nothing can be done now without blocking.
    WouldBlock,
    /// The stream ended where more bytes were expected.
    UnexpectedEof,
    /// The operating system's error, by its number.
    Os(i32),
    /// Any other failure.
    Other,
}

/// A stream of bytes that is read without blocking.
pub trait Read {
    /// Whether a read of at most `limit` bytes can take the stream from
    /// `self` to `next` and give `outcome`.
    open spec fn reads(
        &self,
        limit: usize,
        next: &Self,
        outcome: Result<Vec<u8>, IoError>,
    ) -> bool {
        true
    }

    /// Reads what is there, `limit` bytes at most. No bytes at all mean that
    /// the stream has ended.
    fn read(&mut self, limit: usize) -> (outcome: Result<Vec<u8>, IoError>)
        ensures
            old(self).reads(limit, final(self), outcome),
    ;
}

/// A stream of bytes that is written without blocking.
pub trait Write {
    /// Whether a write of `data` can take the stream from `self` to `next`
    /// and give `outcome`.
    open spec fn writes(
        &self,
        data: Seq<u8>,
        next: &Self,
        outcome: Result<usize, IoError>,
    ) -> bool {
        true
    }

    /// Writes bytes from the front of `data` and says how many went out.
    fn write(&mut self, data: &[u8]) -> (outcome: Result<usize, IoError>)
        ensures
            old(self).writes(data@, final(self), outcome),
    ;
}

/// What a poll makes of the result of a read or a write: "would block" is
/// `NotReady`, any other error is the poll's error.
pub open spec fn polled<T>(result: Result<T, IoError>) -> Poll<T, IoError> {
    match result {
        Ok(value) => Ok(PollResult::Ready(value)),
        Err(IoError::WouldBlock) => Ok(PollResult::NotReady),
        Err(e) => Err(e),
    }
}

/// Turns the result of a read or a write into the result of a poll.
pub fn poll_io<T>(result: Result<T, IoError>) -> (outcome: Poll<T, IoError>)
    ensures
        outcome == polled(result),
{
    match result {
        Ok(value) => Ok(PollResult::Ready(value)),
        Err(IoError::WouldBlock) => Ok(PollResult::NotReady),
        Err(e) => Err(e),
    }
}

/// An in-memory duplex stream: what is written to it can be read from it,
/// in the order in which it was written.
pub struct Duplex {
    pub held: Vec<u8>,
}

impl View for Duplex {
    type V = Seq<u8>;

    /// The bytes that were written and not yet read.
    open spec fn view(&self) -> Seq<u8> {
        self.held@
    }
}

impl Duplex {
    /// A stream that holds nothing.
    pub fn new() -> (stream: Duplex)
        ensures
            stream@ == Seq::<u8>::empty(),
    {
        Duplex { held: Vec::new() }
    }
}

/// How many bytes a read of at most `limit` bytes takes of `held` bytes.
pub open spec fn read_size(limit: usize, held: nat) -> int {
    if limit <= held {
        limit as int
    } else {
        held as int
    }
}

impl Read for Duplex {
    open spec fn reads(
        &self,
        limit: usize,
        next: &Self,
        outcome: Result<Vec<u8>, IoError>,
    ) -> bool {
        if self@.len() == 0 {
            next@ == self@ && outcome == Err::<Vec<u8>, IoError>(IoError::WouldBlock)
        } else {
            &&& outcome matches Ok(chunk)
            &&& chunk@ == self@.take(read_size(limit, self@.len()))
            &&& next@ == self@.skip(read_size(limit, self@.len()))
        }
    }

    /// Gives the bytes at the front of what is held, `limit` at most; it
    /// would block where nothing is held.
    fn read(&mut self, limit: usize) -> (outcome: Result<Vec<u8>, IoError>) {
        if self.held.len() == 0 {
            return Err(IoError::WouldBlock);
        }
        let size = if limit <= self.held.len() {
            limit
        } else {
            self.held.len()
        };
        let mut chunk = self.held.split_off(size);
        std::mem::swap(&mut chunk, &mut self.held);
        Ok(chunk)
    }
}

impl Write for Duplex {
    open spec fn writes(
        &self,
        data: Seq<u8>,
        next: &Self,
        outcome: Result<usize, IoError>,
    ) -> bool {
        &&& outcome matches Ok(written)
        &&& written == data.len()
        &&& next@ == self@ + data
    }

    /// Takes all of `data` after what is held.
    fn write(&mut self, data: &[u8]) -> (outcome: Result<usize, IoError>) {
        self.held.extend_from_slice(data);
        proof {
            assert(self.held@ =~= old(self).held@ + data@);
        }
        Ok(data.len())
    }
}


} // verus!
