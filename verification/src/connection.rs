//! One connection: it reads a request, has it handled, writes the
//! response, and reads again.

use std::sync::Arc;
use vstd::prelude::*;
use crate::handler::Handler;
use crate::pollable::{IntoPollable, Poll, Pollable, completes_in, converts};
use crate::result::PollResult;
use crate::sink::{SendOne, Sink};

verus! {

/// The state of a connection. Each state owns the transport, alone or
/// inside what is being polled.
pub enum Connection<H, S> where
    H: Handler,
    S: Pollable<Item = H::Request> + Sink<Item = H::Response>,
 {
    /// Waiting for a request from the transport.
    Reading(S, Arc<H>),
    /// Waiting for the handler's response.
    Handling(S, Arc<H>, <H::Pollable as IntoPollable>::Pollable),
    /// Waiting for the response to go out.
    Writing(SendOne<S, H::Response>, Arc<H>),
    /// An error was given; also the state during a poll.
    Done,
}

impl<H, S> Connection<H, S> where
    H: Handler,
    S: Pollable<Item = H::Request> + Sink<Item = H::Response>,
 {
    /// A connection that waits for its first request.
    pub fn new(s: S, handler: Arc<H>) -> (connection: Connection<H, S>)
        ensures
            connection == Connection::<H, S>::Reading(s, handler),
    {
        Connection::Reading(s, handler)
    }
}

impl<H, S> Pollable for Connection<H, S> where
    H: Handler,
    S: Pollable<Item = H::Request> + Sink<Item = H::Response>,
    H::Error: From<<S as Pollable>::Error>,
    H::Error: From<<S as Sink>::Error>,
 {
    type Item = ();

    type Error = H::Error;

    /// A connection can be polled until it has given an error, if its
    /// transport is one that can be polled at any time, also after it
    /// gave a request.
    open spec fn can_poll(&self) -> bool {
        &&& forall|transport: S| #[trigger] Pollable::can_poll(&transport)
        &&& match *self {
            Connection::Reading(_, _) => true,
            Connection::Handling(_, _, response) => response.can_poll(),
            Connection::Writing(_, _) => true,
            Connection::Done => false,
        }
    }

    open spec fn steps(&self, next: &Self, outcome: Poll<(), H::Error>) -> bool {
        match *self {
            Connection::Reading(transport, handler) => exists|
                after: S,
                read: Poll<H::Request, <S as Pollable>::Error>,
            |
                {
                    &&& #[trigger] Pollable::steps(&transport, &after, read)
                    &&& match read {
                        Err(e) => {
                            &&& *next is Done
                            &&& outcome is Err
                            &&& converts(e, outcome->Err_0)
                        },
                        Ok(PollResult::NotReady) => {
                            &&& *next == Connection::<H, S>::Reading(after, handler)
                            &&& outcome == Ok::<PollResult<()>, H::Error>(PollResult::NotReady)
                        },
                        Ok(PollResult::Ready(request)) => exists|response: H::Pollable|
                            {
                                &&& #[trigger] handler.handles(request, response)
                                &&& *next is Handling
                                &&& next->Handling_0 == after
                                &&& next->Handling_1 == handler
                                &&& response.lifts(next->Handling_2)
                                &&& outcome == Ok::<PollResult<()>, H::Error>(
                                    PollResult::NotReady,
                                )
                            },
                    }
                },
            Connection::Handling(transport, handler, response) => exists|
                after: <H::Pollable as IntoPollable>::Pollable,
                answer: Poll<H::Response, H::Error>,
            |
                {
                    &&& #[trigger] response.steps(&after, answer)
                    &&& match answer {
                        Err(e) => *next is Done && outcome == Err::<PollResult<()>, H::Error>(e),
                        Ok(PollResult::NotReady) => {
                            &&& *next == Connection::<H, S>::Handling(transport, handler, after)
                            &&& outcome == Ok::<PollResult<()>, H::Error>(PollResult::NotReady)
                        },
                        Ok(PollResult::Ready(item)) => {
                            &&& *next == Connection::<H, S>::Writing(
                                SendOne { inner: transport, value: Some(item) },
                                handler,
                            )
                            &&& outcome == Ok::<PollResult<()>, H::Error>(PollResult::NotReady)
                        },
                    }
                },
            Connection::Writing(sending, handler) => exists|
                after: SendOne<S, H::Response>,
                sent: Poll<(), <S as Sink>::Error>,
            |
                {
                    &&& #[trigger] sending.steps(&after, sent)
                    &&& match sent {
                        Err(e) => {
                            &&& *next is Done
                            &&& outcome is Err
                            &&& converts(e, outcome->Err_0)
                        },
                        Ok(PollResult::NotReady) => {
                            &&& *next == Connection::<H, S>::Writing(after, handler)
                            &&& outcome == Ok::<PollResult<()>, H::Error>(PollResult::NotReady)
                        },
                        Ok(PollResult::Ready(_)) => {
                            &&& *next == Connection::<H, S>::Reading(after.inner, handler)
                            &&& outcome == Ok::<PollResult<()>, H::Error>(PollResult::NotReady)
                        },
                    }
                },
            Connection::Done => false,
        }
    }

    /// Polls what the state waits for, and moves on when it is there:
    /// from reading to handling, from handling to writing, from writing back
    /// to reading. The connection never gives a value: it serves until an
    /// error, which is also how the end of the stream shows.
    fn poll(&mut self) -> (outcome: Poll<(), H::Error>)
        ensures
            !(outcome matches Ok(PollResult::Ready(_))),
            outcome is Err ==> *final(self) is Done,
    {
        let mut state = Connection::Done;
        std::mem::swap(self, &mut state);
        let next = match state {
            Connection::Reading(mut stream, handler) => {
                let ghost before = stream;
                let read = Pollable::poll(&mut stream);
                proof {
                    assert(Pollable::steps(&before, &stream, read));
                }
                match read {
                    Err(e) => {
                        return Err(H::Error::from(e));
                    },
                    Ok(PollResult::NotReady) => Connection::Reading(stream, handler),
                    Ok(PollResult::Ready(request)) => {
                        let response = handler.handle(request);
                        let pollable = response.into_pollable();
                        proof {
                            assert(handler.handles(request, response));
                            assert(response.lifts(pollable));
                        }
                        Connection::Handling(stream, handler, pollable)
                    },
                }
            },
            Connection::Handling(s, h, mut pollable) => {
                let ghost before = pollable;
                let answer = pollable.poll();
                proof {
                    assert(before.steps(&pollable, answer));
                }
                match answer {
                    Err(e) => {
                        return Err(e);
                    },
                    Ok(PollResult::NotReady) => Connection::Handling(s, h, pollable),
                    Ok(PollResult::Ready(response)) => Connection::Writing(
                        s.send_one(response),
                        h,
                    ),
                }
            },
            Connection::Writing(mut sink, h) => {
                let ghost before = sink;
                let sent = sink.poll();
                proof {
                    assert(before.steps(&sink, sent));
                }
                match sent {
                    Err(e) => {
                        return Err(H::Error::from(e));
                    },
                    Ok(PollResult::Ready(_)) => Connection::Reading(sink.into_inner(), h),
                    Ok(PollResult::NotReady) => Connection::Writing(sink, h),
                }
            },
            Connection::Done => unreached(),
        };
        *self = next;
        Ok(PollResult::NotReady)
    }
}

/// The place of a state in the cycle of a connection: reading is first,
/// handling second, writing third. `None` for a connection that is done.
pub open spec fn phase<H, S>(connection: Connection<H, S>) -> Option<int> where
    H: Handler,
    S: Pollable<Item = H::Request> + Sink<Item = H::Response>,
 {
    match connection {
        Connection::Reading(_, _) => Some(0),
        Connection::Handling(_, _, _) => Some(1),
        Connection::Writing(_, _) => Some(2),
        Connection::Done => None,
    }
}

/// A poll of a connection never gives a value. A poll that gives an error
/// ends the connection. Any other poll leaves the connection in its phase
/// or takes it to the next one, and after writing comes reading again: so a
/// connection that is fed requests goes from reading to handling to
/// writing and back to reading, for as long as no error is given.
pub proof fn lemma_connection_cycle<H, S>(
    before: Connection<H, S>,
    after: Connection<H, S>,
    outcome: Poll<(), H::Error>,
) where
    H: Handler,
    S: Pollable<Item = H::Request> + Sink<Item = H::Response>,
    H::Error: From<<S as Pollable>::Error>,
    H::Error: From<<S as Sink>::Error>,

    requires
        before.steps(&after, outcome),
    ensures
        phase(before) is Some,
        !(outcome matches Ok(PollResult::Ready(_))),
        outcome is Err <==> phase(after) is None,
        outcome is Ok ==> phase(after) == phase(before) || phase(after) == Some(
            (phase(before)->0 + 1) % 3,
        ),
{
}

/// Whether what the connection waits for is there at the next poll: the
/// request where it reads, the response where it has the request handled,
/// the end of the flush where it writes.
pub open spec fn served<H, S>(connection: Connection<H, S>) -> bool where
    H: Handler,
    S: Pollable<Item = H::Request> + Sink<Item = H::Response>,
 {
    match connection {
        Connection::Reading(transport, _) => exists|request: H::Request|
            completes_in(transport, 1, request),
        Connection::Handling(_, _, response) => exists|item: H::Response|
            completes_in(response, 1, item),
        Connection::Writing(sending, _) => completes_in(sending, 1, ()),
        Connection::Done => false,
    }
}

/// A connection moves on to its next phase, without an error, in the poll
/// in which what it waits for is there.
pub proof fn lemma_served_connection_moves_on<H, S>(
    before: Connection<H, S>,
    after: Connection<H, S>,
    outcome: Poll<(), H::Error>,
) where
    H: Handler,
    S: Pollable<Item = H::Request> + Sink<Item = H::Response>,
    H::Error: From<<S as Pollable>::Error>,
    H::Error: From<<S as Sink>::Error>,

    requires
        served(before),
        before.steps(&after, outcome),
    ensures
        outcome == Ok::<PollResult<()>, H::Error>(PollResult::NotReady),
        phase(after) == Some((phase(before)->0 + 1) % 3),
{
}

/// A connection that is fed two requests, each answered and written at
/// once, goes from reading to handling to writing, and again from reading
/// to handling to writing, and is reading once more after that; none of
/// its six polls gives an error.
pub proof fn lemma_keep_alive<H, S>(
    states: Seq<Connection<H, S>>,
    outcomes: Seq<Poll<(), H::Error>>,
) where
    H: Handler,
    S: Pollable<Item = H::Request> + Sink<Item = H::Response>,
    H::Error: From<<S as Pollable>::Error>,
    H::Error: From<<S as Sink>::Error>,

    requires
        states.len() == 7,
        outcomes.len() == 6,
        states[0] is Reading,
        forall|i: int|
            0 <= i < 6 ==> served(#[trigger] states[i]) && states[i].steps(
                &states[i + 1],
                outcomes[i],
            ),
    ensures
        forall|i: int|
            0 <= i < 6 ==> #[trigger] outcomes[i] == Ok::<PollResult<()>, H::Error>(
                PollResult::NotReady,
            ),
        states[1] is Handling,
        states[2] is Writing,
        states[3] is Reading,
        states[4] is Handling,
        states[5] is Writing,
        states[6] is Reading,
{
    lemma_served_connection_moves_on(states[0], states[1], outcomes[0]);
    lemma_served_connection_moves_on(states[1], states[2], outcomes[1]);
    lemma_served_connection_moves_on(states[2], states[3], outcomes[2]);
    lemma_served_connection_moves_on(states[3], states[4], outcomes[3]);
    lemma_served_connection_moves_on(states[4], states[5], outcomes[4]);
    lemma_served_connection_moves_on(states[5], states[6], outcomes[5]);
}


} // verus!
