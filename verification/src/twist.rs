//! The copy between two endpoints, in both directions at once.

use std::rc::Rc;
use vstd::prelude::*;
use vstd::slice::slice_subrange;
use crate::join::Join;
use crate::pollable::{Combine, Poll, Pollable};
use crate::result::PollResult;
use crate::stream::{IoError, Read, Write, poll_io, polled};

verus! {

/// How many bytes one read of a transfer asks for.
pub const BUFFER_SIZE: usize = 1024 * 8;

/// How many reads and writes one poll of a transfer makes at most.
pub const TRANSFER_ROUNDS: usize = usize::MAX;

/// What a transfer does next.
#[derive(Debug, Clone, Copy, PartialEq, Eq, Structural)]
pub enum TransferState {
    /// It reads from the source.
    Reading,
    /// It writes what it read, from this position of its buffer on.
    Writing(usize),
}

/// The copy of everything that one endpoint gives to another endpoint. The
/// endpoints are shared with the copy in the other direction.
pub struct Transfer<S, D> {
    pub source: Rc<S>,
    pub destination: Rc<D>,
    pub buffer: Vec<u8>,
    pub state: TransferState,
    pub transferred: usize,
}

/// What a transfer holds besides its endpoints.
pub struct Moving {
    pub buffer: Seq<u8>,
    pub state: TransferState,
    pub transferred: usize,
}

impl<S, D> Transfer<S, D> {
    /// What the transfer holds besides its endpoints.
    pub open spec fn moving(&self) -> Moving {
        Moving { buffer: self.buffer@, state: self.state, transferred: self.transferred }
    }

    /// A transfer that has moved nothing yet.
    pub fn new(source: Rc<S>, destination: Rc<D>) -> (transfer: Transfer<S, D>)
        ensures
            transfer.source == source,
            transfer.destination == destination,
            transfer.moving() == (Moving {
                buffer: Seq::empty(),
                state: TransferState::Reading,
                transferred: 0,
            }),
    {
        Transfer {
            source,
            destination,
            buffer: Vec::new(),
            state: TransferState::Reading,
            transferred: 0,
        }
    }

    /// Gives the two endpoints back.
    pub fn into_inner(self) -> (ends: (Rc<S>, Rc<D>))
        ensures
            ends == (self.source, self.destination),
    {
        (self.source, self.destination)
    }
}

/// The count of bytes after `more` have been added: it stays at the largest
/// `usize` once it got there.
pub open spec fn counted(transferred: usize, more: int) -> usize {
    if transferred + more > usize::MAX {
        usize::MAX
    } else {
        (transferred + more) as usize
    }
}

/// What is written of what a stream says it wrote, where `left` bytes were
/// offered.
pub open spec fn taken(written: usize, left: int) -> int {
    if written <= left {
        written as int
    } else {
        left
    }
}

/// Whether a transfer can be polled: what it still has to write lies in
/// its buffer.
pub open spec fn can_move(now: Moving) -> bool {
    match now.state {
        TransferState::Reading => true,
        TransferState::Writing(from) => from < now.buffer.len(),
    }
}

/// What one poll of a transfer can do with `rounds` reads and writes left,
/// from `now` to `next`, giving `outcome`.
///
/// While reading, the source is read: bytes that come are written next,
/// and no bytes are the end of the source, where the transfer gives the
/// count of the bytes it moved. While writing, what is left of the bytes is
/// offered to the destination; what it took is counted, and when it has
/// taken them all the source is read again. A destination that takes
/// nothing ends the transfer too. A read or write that would block gives
/// `NotReady`, any other error is the poll's error.
pub open spec fn transfer_rounds<S, D>(
    source: Rc<S>,
    destination: Rc<D>,
    now: Moving,
    rounds: nat,
    next: Moving,
    outcome: Poll<usize, IoError>,
) -> bool where for <'a>&'a S: Read, for <'a>&'a D: Write
    decreases rounds,
{
    if rounds == 0 {
        next == now && outcome == Ok::<PollResult<usize>, IoError>(PollResult::NotReady)
    } else {
        match now.state {
            TransferState::Reading => exists|after: &S, read: Result<Vec<u8>, IoError>|
                {
                    &&& #[trigger] (&*source).reads(BUFFER_SIZE, &after, read)
                    &&& match read {
                        Err(e) => next == now && outcome == polled::<usize>(Err(e)),
                        Ok(chunk) => if chunk@.len() == 0 {
                            next == now && outcome == Ok::<PollResult<usize>, IoError>(
                                PollResult::Ready(now.transferred),
                            )
                        } else {
                            transfer_rounds(
                                source,
                                destination,
                                Moving {
                                    buffer: chunk@,
                                    state: TransferState::Writing(0),
                                    transferred: now.transferred,
                                },
                                (rounds - 1) as nat,
                                next,
                                outcome,
                            )
                        },
                    }
                },
            TransferState::Writing(from) => exists|after: &D, wrote: Result<usize, IoError>|
                {
                    &&& #[trigger] (&*destination).writes(
                        now.buffer.skip(from as int),
                        &after,
                        wrote,
                    )
                    &&& match wrote {
                        Err(e) => next == now && outcome == polled::<usize>(Err(e)),
                        Ok(written) => if written == 0 {
                            next == now && outcome == Ok::<PollResult<usize>, IoError>(
                                PollResult::Ready(now.transferred),
                            )
                        } else {
                            let moved = taken(written, now.buffer.len() - from);
                            transfer_rounds(
                                source,
                                destination,
                                Moving {
                                    buffer: now.buffer,
                                    state: if from + moved == now.buffer.len() {
                                        TransferState::Reading
                                    } else {
                                        TransferState::Writing((from + moved) as usize)
                                    },
                                    transferred: counted(now.transferred, moved),
                                },
                                (rounds - 1) as nat,
                                next,
                                outcome,
                            )
                        },
                    }
                },
        }
    }
}

impl<S, D> Pollable for Transfer<S, D> where for <'a>&'a S: Read, for <'a>&'a D: Write {
    type Item = usize;

    type Error = IoError;

    open spec fn can_poll(&self) -> bool {
        can_move(self.moving())
    }

    open spec fn steps(&self, next: &Self, outcome: Poll<usize, IoError>) -> bool {
        &&& next.source == self.source
        &&& next.destination == self.destination
        &&& transfer_rounds(
            self.source,
            self.destination,
            self.moving(),
            TRANSFER_ROUNDS as nat,
            next.moving(),
            outcome,
        )
    }

    /// Moves bytes from the source to the destination until one of them
    /// would block or is at its end. It may be polled again after any
    /// outcome.
    fn poll(&mut self) -> (outcome: Poll<usize, IoError>)
        ensures
            final(self).can_poll(),
    {
        let mut rounds: usize = TRANSFER_ROUNDS;
        loop
            invariant
                self.source == old(self).source,
                self.destination == old(self).destination,
                can_move(self.moving()),
                forall|next: Moving, outcome: Poll<usize, IoError>| #[trigger]
                    transfer_rounds(
                        self.source,
                        self.destination,
                        self.moving(),
                        rounds as nat,
                        next,
                        outcome,
                    ) ==> transfer_rounds(
                        old(self).source,
                        old(self).destination,
                        old(self).moving(),
                        TRANSFER_ROUNDS as nat,
                        next,
                        outcome,
                    ),
            decreases rounds,
        {
            let ghost now = self.moving();
            let ghost before = rounds as nat;
            if rounds == 0 {
                proof {
                    assert(transfer_rounds(
                        self.source,
                        self.destination,
                        now,
                        before,
                        now,
                        Ok(PollResult::NotReady),
                    ));
                }
                return Ok(PollResult::NotReady);
            }
            match self.state {
                TransferState::Reading => {
                    let mut source: &S = &*self.source;
                    let read = source.read(BUFFER_SIZE);
                    let ghost after = source;
                    proof {
                        assert((&*self.source).reads(BUFFER_SIZE, &after, read));
                    }
                    let chunk = match read {
                        Ok(chunk) => chunk,
                        Err(e) => {
                            let outcome = poll_io::<usize>(Err(e));
                            proof {
                                assert(transfer_rounds(
                                    self.source,
                                    self.destination,
                                    now,
                                    before,
                                    now,
                                    outcome,
                                ));
                            }
                            return outcome;
                        },
                    };
                    if chunk.len() == 0 {
                        proof {
                            assert(transfer_rounds(
                                self.source,
                                self.destination,
                                now,
                                before,
                                now,
                                Ok(PollResult::Ready(now.transferred)),
                            ));
                        }
                        return Ok(PollResult::Ready(self.transferred));
                    }
                    self.buffer = chunk;
                    self.state = TransferState::Writing(0);
                    rounds = rounds - 1;
                    proof {
                        assert forall|next: Moving, outcome: Poll<usize, IoError>| #[trigger]
                            transfer_rounds(
                                self.source,
                                self.destination,
                                self.moving(),
                                rounds as nat,
                                next,
                                outcome,
                            ) implies transfer_rounds(
                            old(self).source,
                            old(self).destination,
                            old(self).moving(),
                            TRANSFER_ROUNDS as nat,
                            next,
                            outcome,
                        ) by {
                            assert((&*self.source).reads(BUFFER_SIZE, &after, read));
                            assert((before - 1) as nat == rounds as nat);
                            assert(transfer_rounds(
                                self.source,
                                self.destination,
                                now,
                                before,
                                next,
                                outcome,
                            ));
                        }
                    }
                },
                TransferState::Writing(from) => {
                    let mut destination: &D = &*self.destination;
                    let len = self.buffer.len();
                    let rest = slice_subrange(self.buffer.as_slice(), from, len);
                    let wrote = destination.write(rest);
                    let ghost after = destination;
                    proof {
                        assert((&*self.destination).writes(
                            now.buffer.skip(from as int),
                            &after,
                            wrote,
                        ));
                    }
                    let written = match wrote {
                        Ok(written) => written,
                        Err(e) => {
                            let outcome = poll_io::<usize>(Err(e));
                            proof {
                                assert(transfer_rounds(
                                    self.source,
                                    self.destination,
                                    now,
                                    before,
                                    now,
                                    outcome,
                                ));
                            }
                            return outcome;
                        },
                    };
                    if written == 0 {
                        proof {
                            assert(transfer_rounds(
                                self.source,
                                self.destination,
                                now,
                                before,
                                now,
                                Ok(PollResult::Ready(now.transferred)),
                            ));
                        }
                        return Ok(PollResult::Ready(self.transferred));
                    }
                    let left = len - from;
                    let moved = if written <= left {
                        written
                    } else {
                        left
                    };
                    self.transferred = if self.transferred > usize::MAX - moved {
                        usize::MAX
                    } else {
                        self.transferred + moved
                    };
                    if moved == left {
                        self.state = TransferState::Reading;
                    } else {
                        self.state = TransferState::Writing(from + moved);
                    }
                    rounds = rounds - 1;
                    proof {
                        assert forall|next: Moving, outcome: Poll<usize, IoError>| #[trigger]
                            transfer_rounds(
                                self.source,
                                self.destination,
                                self.moving(),
                                rounds as nat,
                                next,
                                outcome,
                            ) implies transfer_rounds(
                            old(self).source,
                            old(self).destination,
                            old(self).moving(),
                            TRANSFER_ROUNDS as nat,
                            next,
                            outcome,
                        ) by {
                            assert((&*self.destination).writes(
                                now.buffer.skip(from as int),
                                &after,
                                wrote,
                            ));
                            assert((before - 1) as nat == rounds as nat);
                            assert(transfer_rounds(
                                self.source,
                                self.destination,
                                now,
                                before,
                                next,
                                outcome,
                            ));
                        }
                    }
                },
            }
        }
    }
}

/// The copy between two endpoints in both directions: what the first
/// gives goes to the second, and what the second gives goes to the first.
/// Its value is the pair of the counts of bytes moved, the first
/// endpoint's bytes first.
pub struct Twister<S, D>(pub Join<Transfer<S, D>, Transfer<D, S>>) where
    for <'a>&'a S: Read + Write,
    for <'a>&'a D: Read + Write,
;

impl<S, D> Twister<S, D> where for <'a>&'a S: Read + Write, for <'a>&'a D: Read + Write {
    /// The copy between `source` and `destination`, with nothing moved yet.
    pub fn new(source: S, destination: D) -> (twister: Twister<S, D>)
        ensures
            twister.0 == Join::<Transfer<S, D>, Transfer<D, S>>::spec_new(
                twister.0.left,
                twister.0.right,
            ),
            *twister.0.left.source == source,
            *twister.0.left.destination == destination,
            *twister.0.right.source == destination,
            *twister.0.right.destination == source,
            twister.0.left.moving() == (Moving {
                buffer: Seq::empty(),
                state: TransferState::Reading,
                transferred: 0,
            }),
            twister.0.right.moving() == twister.0.left.moving(),
            twister.can_poll(),
    {
        let source = Rc::new(source);
        let destination = Rc::new(destination);
        let inner = Transfer::new(source.clone(), destination.clone()).join(
            Transfer::new(destination, source),
        );
        Twister(inner)
    }

    /// Gives the two endpoints back, where nothing else shares them.
    pub fn into_inner(self) -> (ends: Option<(S, D)>)
        ensures
            ends matches Some((source, destination)) ==> source == *self.0.left.source
                && destination == *self.0.right.source,
    {
        let (src_transfer, dest_transfer) = self.0.into_inner();
        let (src, _) = src_transfer.into_inner();
        let (dst, _) = dest_transfer.into_inner();
        both_ends(Rc::try_unwrap(src), Rc::try_unwrap(dst))
    }
}

/// The two endpoints, where both were given up by what shared them.
pub fn both_ends<S, D>(source: Result<S, Rc<S>>, destination: Result<D, Rc<D>>) -> (ends: Option<
    (S, D),
>)
    ensures
        ends == match (source, destination) {
            (Ok(source), Ok(destination)) => Some((source, destination)),
            _ => None,
        },
{
    match (source, destination) {
        (Ok(source), Ok(destination)) => Some((source, destination)),
        _ => None,
    }
}

impl<S, D> Pollable for Twister<S, D> where
    for <'a>&'a S: Read + Write,
    for <'a>&'a D: Read + Write,
 {
    type Item = (usize, usize);

    type Error = IoError;

    open spec fn can_poll(&self) -> bool {
        self.0.can_poll()
    }

    open spec fn steps(&self, next: &Self, outcome: Poll<(usize, usize), IoError>) -> bool {
        self.0.steps(&next.0, outcome)
    }

    /// Polls the two copies side by side.
    fn poll(&mut self) -> (outcome: Poll<(usize, usize), IoError>)
        ensures
            !(outcome matches Ok(PollResult::NotReady)) ==> !final(self).can_poll(),
    {
        self.0.poll()
    }
}

} // verus!
