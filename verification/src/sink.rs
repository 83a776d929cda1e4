//! The sink: where items go out, and the computation that sends one item.

use vstd::prelude::*;
use crate::pollable::{Poll, Pollable};
use crate::result::PollResult;

verus! {

/// What a sink answers to an item: it took it, or it hands it back.
#[derive(Debug, PartialEq, Eq)]
pub enum SinkResult<T> {
    Ready,
    NotReady(T),
}

/// What `start_send` gives: the sink's answer, or an error.
pub type StartSend<T, E> = Result<SinkResult<T>, E>;

/// Where items go out, through a buffer that is flushed by polling.
///
/// `sends` and `flushes` relate the state before a call, the state after
/// it, and what the call gave. For an implementation that says nothing of
/// itself any outcome is possible.
pub trait Sink {
    type Item;

    type Error;

    /// Whether `start_send` of `item` can take the sink from `self` to
    /// `next` and give `outcome`.
    open spec fn sends(
        &self,
        item: Self::Item,
        next: &Self,
        outcome: StartSend<Self::Item, Self::Error>,
    ) -> bool {
        true
    }

    /// Whether `poll_complete` can take the sink from `self` to `next` and
    /// give `outcome`.
    open spec fn flushes(&self, next: &Self, outcome: Poll<(), Self::Error>) -> bool {
        true
    }

    /// Offers an item to the sink. A sink that does not take the item hands
    /// the same item back.
    fn start_send(&mut self, item: Self::Item) -> (outcome: StartSend<Self::Item, Self::Error>)
        ensures
            old(self).sends(item, final(self), outcome),
            outcome matches Ok(SinkResult::NotReady(back)) ==> back == item,
    ;

    /// Tries to flush what the sink has buffered. It may be called again
    /// and again.
    fn poll_complete(&mut self) -> (outcome: Poll<(), Self::Error>)
        ensures
            old(self).flushes(final(self), outcome),
    ;

    /// The computation that sends `item` into this sink.
    fn send_one(self, item: Self::Item) -> (sending: SendOne<Self, Self::Item>) where Self: Sized
        ensures
            sending == (SendOne { inner: self, value: Some(item) }),
    {
        SendOne::new(self, item)
    }
}

/// A sink and the one item that is to go into it.
pub struct SendOne<S, I> {
    pub inner: S,
    pub value: Option<I>,
}

impl<S, I> SendOne<S, I> {
    /// The computation that sends `value` into `inner`.
    pub fn new(inner: S, value: I) -> (sending: SendOne<S, I>)
        ensures
            sending == (SendOne { inner, value: Some(value) }),
    {
        SendOne { inner, value: Some(value) }
    }

    /// Gives the sink back.
    pub fn into_inner(self) -> (inner: S)
        ensures
            inner == self.inner,
    {
        self.inner
    }
}

/// How often one poll of `SendOne` offers its item again after the sink
/// handed it back and then reported a finished flush.
pub const SEND_ROUNDS: usize = usize::MAX;

/// What one poll of `SendOne` can do, with `rounds` offers left.
///
/// With the item gone, the poll is a flush. With the item there, it is
/// offered: an error ends the poll and the item is lost; a sink that took it
/// is flushed; a sink that handed it back is flushed, and where that flush
/// reports it has finished the item is offered again.
pub open spec fn send_rounds<S: Sink>(
    sink: S,
    value: Option<S::Item>,
    rounds: nat,
    next: SendOne<S, S::Item>,
    outcome: Poll<(), S::Error>,
) -> bool
    decreases rounds,
{
    match value {
        None => sink.flushes(&next.inner, outcome) && next.value is None,
        Some(item) => if rounds == 0 {
            &&& next.inner == sink
            &&& next.value == value
            &&& outcome == Ok::<PollResult<()>, S::Error>(PollResult::NotReady)
        } else {
            exists|sent: S, answer: StartSend<S::Item, S::Error>|
                {
                    &&& #[trigger] sink.sends(item, &sent, answer)
                    &&& match answer {
                        Err(e) => {
                            &&& outcome == Err::<PollResult<()>, S::Error>(e)
                            &&& next.inner == sent
                            &&& next.value is None
                        },
                        Ok(SinkResult::Ready) => {
                            &&& sent.flushes(&next.inner, outcome)
                            &&& next.value is None
                        },
                        Ok(SinkResult::NotReady(back)) => exists|
                            flushed: S,
                            done: Poll<(), S::Error>,
                        |
                            {
                                &&& #[trigger] sent.flushes(&flushed, done)
                                &&& match done {
                                    Ok(PollResult::Ready(_)) => send_rounds(
                                        flushed,
                                        Some(back),
                                        (rounds - 1) as nat,
                                        next,
                                        outcome,
                                    ),
                                    _ => {
                                        &&& outcome == done
                                        &&& next.inner == flushed
                                        &&& next.value == Some(back)
                                    },
                                }
                            },
                    }
                }
        },
    }
}

impl<S, I> Pollable for SendOne<S, I> where S: Sink<Item = I> {
    type Item = ();

    type Error = S::Error;

    open spec fn can_poll(&self) -> bool {
        true
    }

    open spec fn steps(&self, next: &Self, outcome: Poll<(), S::Error>) -> bool {
        send_rounds(self.inner, self.value, SEND_ROUNDS as nat, *next, outcome)
    }

    /// Offers the item to the sink until the sink takes it, then flushes the
    /// sink. Gives `NotReady` where a flush does; the value is there when
    /// the flush after the item was taken has finished.
    fn poll(&mut self) -> (outcome: Poll<(), S::Error>) {
        let mut rounds: usize = SEND_ROUNDS;
        loop
            invariant
                forall|next: SendOne<S, I>, outcome: Poll<(), S::Error>| #[trigger]
                    send_rounds(self.inner, self.value, rounds as nat, next, outcome)
                        ==> send_rounds(
                        old(self).inner,
                        old(self).value,
                        SEND_ROUNDS as nat,
                        next,
                        outcome,
                    ),
            decreases rounds,
        {
            let ghost sink = self.inner;
            let ghost before = rounds as nat;
            match self.value.take() {
                Some(item) => {
                    if rounds == 0 {
                        self.value = Some(item);
                        proof {
                            assert(send_rounds(
                                sink,
                                Some(item),
                                rounds as nat,
                                *self,
                                Ok(PollResult::NotReady),
                            ));
                        }
                        return Ok(PollResult::NotReady);
                    }
                    let answer = self.inner.start_send(item);
                    let ghost sent = self.inner;
                    match answer {
                        Err(e) => {
                            proof {
                                assert(sink.sends(item, &sent, answer));
                                assert(send_rounds(sink, Some(item), rounds as nat, *self, Err(e)));
                            }
                            return Err(e);
                        },
                        Ok(SinkResult::Ready) => {
                            let outcome = self.inner.poll_complete();
                            proof {
                                assert(sink.sends(item, &sent, answer));
                                assert(send_rounds(
                                    sink,
                                    Some(item),
                                    rounds as nat,
                                    *self,
                                    outcome,
                                ));
                            }
                            return outcome;
                        },
                        Ok(SinkResult::NotReady(back)) => {
                            self.value = Some(back);
                            let done = self.inner.poll_complete();
                            match done {
                                Ok(PollResult::Ready(_)) => {
                                    rounds = rounds - 1;
                                    proof {
                                        assert forall|
                                            next: SendOne<S, I>,
                                            outcome: Poll<(), S::Error>,
                                        | #[trigger]
                                            send_rounds(
                                                self.inner,
                                                self.value,
                                                rounds as nat,
                                                next,
                                                outcome,
                                            ) implies send_rounds(
                                            old(self).inner,
                                            old(self).value,
                                            SEND_ROUNDS as nat,
                                            next,
                                            outcome,
                                        ) by {
                                            assert(sink.sends(item, &sent, answer));
                                            assert(sent.flushes(&self.inner, done));
                                            assert((before - 1) as nat == rounds as nat);
                                            assert(send_rounds(
                                                sink,
                                                Some(item),
                                                before,
                                                next,
                                                outcome,
                                            ));
                                        }
                                    }
                                },
                                _ => {
                                    proof {
                                        assert(sink.sends(item, &sent, answer));
                                        assert(sent.flushes(&self.inner, done));
                                        assert(send_rounds(
                                            sink,
                                            Some(item),
                                            rounds as nat,
                                            *self,
                                            done,
                                        ));
                                    }
                                    return done;
                                },
                            }
                        },
                    }
                },
                None => {
                    let outcome = self.inner.poll_complete();
                    proof {
                        assert(send_rounds(sink, None, rounds as nat, *self, outcome));
                    }
                    return outcome;
                },
            }
        }
    }
}

} // verus!
