//! What the pool of workers decides: which worker gets the next stream, how
//! a worker waits for streams, and the pump that polls a worker's
//! connections.

use std::sync::Arc;
use vstd::prelude::*;
use crate::and_then::AndThen;
use crate::bind_transport::BindTransport;
use crate::connection::Connection;
use crate::handler::Handler;
use crate::pollable::{Combine, IntoPollable, Poll, Pollable};
use crate::result::PollResult;
use crate::sink::Sink;
use crate::stream::{Read, Write};

verus! {

/// How many workers a server starts.
pub const NUM_THREADS: usize = 4;

/// The round-robin choice of the worker that gets the next stream.
pub struct RoundRobin {
    workers: usize,
    last_thread: usize,
}

impl RoundRobin {
    /// How many workers there are.
    pub closed spec fn workers(&self) -> nat {
        self.workers as nat
    }

    /// The worker that gets the next stream.
    pub closed spec fn next(&self) -> nat {
        self.last_thread as nat
    }

    /// The choice is among the workers.
    #[verifier::type_invariant]
    spec fn wf(&self) -> bool {
        self.last_thread < self.workers
    }

    /// A dispatcher over `workers` workers that starts with the first.
    pub fn new(workers: usize) -> (dispatcher: RoundRobin)
        requires
            workers > 0,
        ensures
            dispatcher.workers() == workers,
            dispatcher.next() == 0,
    {
        RoundRobin { workers, last_thread: 0 }
    }

    /// The worker for the next stream; the one after it is chosen next, and
    /// the first one after the last.
    pub fn queue(&mut self) -> (worker: usize)
        ensures
            worker == old(self).next(),
            worker < old(self).workers(),
            final(self).workers() == old(self).workers(),
            final(self).next() == (old(self).next() as int + 1) % (old(self).workers() as int),
    {
        proof {
            use_type_invariant(&*self);
        }
        let worker = self.last_thread;
        if self.last_thread == self.workers - 1 {
            self.last_thread = 0;
        } else {
            self.last_thread = self.last_thread + 1;
        }
        proof {
            if worker == self.workers - 1 {
                assert((worker + 1) % (self.workers as int) == 0) by (nonlinear_arith)
                    requires
                        worker + 1 == self.workers,
                        self.workers > 0,
                ;
            } else {
                assert((worker + 1) % (self.workers as int) == worker + 1) by (nonlinear_arith)
                    requires
                        0 <= worker + 1 < self.workers,
                ;
            }
        }
        worker
    }
}

/// The worker that gets stream number `stream`, counted from zero, of a
/// dispatcher over `workers` workers that started with the first.
pub open spec fn worker_of(workers: nat, stream: nat) -> nat {
    stream % workers
}

/// How many of the first `streams` streams go to `worker`.
pub open spec fn share(workers: nat, streams: nat, worker: nat) -> nat
    decreases streams,
{
    if streams == 0 {
        0
    } else {
        share(workers, (streams - 1) as nat, worker) + if worker_of(
            workers,
            (streams - 1) as nat,
        ) == worker {
            1nat
        } else {
            0nat
        }
    }
}

/// A dispatcher that has handed out `stream` streams since it started
/// chooses `worker_of(workers, stream)`, so the order of the workers is
/// fixed by the count alone.
pub proof fn lemma_round_robin_order(before: RoundRobin, after: RoundRobin, stream: nat)
    requires
        before.workers() > 0,
        before.next() == worker_of(before.workers(), stream),
        after.workers() == before.workers(),
        after.next() == (before.next() as int + 1) % (before.workers() as int),
    ensures
        after.next() == worker_of(after.workers(), stream + 1),
{
    let n = before.workers() as int;
    assert(((stream as int % n) + 1) % n == (stream as int + 1) % n) by (nonlinear_arith)
        requires
            n > 0,
            stream >= 0,
    ;
}

/// Of `streams` streams handed out in turn to `workers` workers, each
/// worker gets the whole part of `streams / workers`, and the first
/// `streams % workers` workers get one more: every share is the quotient
/// rounded down or rounded up.
pub proof fn lemma_fair_share(workers: nat, streams: nat, worker: nat)
    requires
        workers > 0,
        worker < workers,
    ensures
        share(workers, streams, worker) == streams / workers + if worker < streams % workers {
            1nat
        } else {
            0nat
        },
        streams / workers <= share(workers, streams, worker) <= (streams as int + workers as int
            - 1) / (workers as int),
    decreases streams,
{
    let n = workers as int;
    let m = streams as int;
    if streams > 0 {
        lemma_fair_share(workers, (streams - 1) as nat, worker);
        let q = (m - 1) / n;
        let r = (m - 1) % n;
        assert(m - 1 == q * n + r && 0 <= r < n) by (nonlinear_arith)
            requires
                q == (m - 1) / n,
                r == (m - 1) % n,
                n > 0,
                m >= 1,
        ;
        if r == n - 1 {
            assert((q + 1) * n == q * n + n) by (nonlinear_arith);
            assert(m / n == q + 1 && m % n == 0) by (nonlinear_arith)
                requires
                    m == (q + 1) * n,
                    n > 0,
            ;
        } else {
            assert(m / n == q && m % n == r + 1) by (nonlinear_arith)
                requires
                    m == q * n + (r + 1),
                    0 <= r + 1 < n,
            ;
        }
    }
    assert(m / n <= (m + n - 1) / n && (m % n > 0 ==> m / n + 1 <= (m + n - 1) / n))
        by (nonlinear_arith)
        requires
            n > 0,
            m >= 0,
    ;
}

/// Whether one poll can leave the slot `after` of the connection
/// `before`: the connection stays where it answered `NotReady`, and the
/// slot is empty where it gave a value or an error.
pub open spec fn pumped<P: Pollable>(before: P, after: Option<P>) -> bool {
    exists|next: P, outcome: Poll<P::Item, P::Error>|
        {
            &&& #[trigger] before.steps(&next, outcome)
            &&& after == if outcome matches Ok(PollResult::NotReady) {
                Some(next)
            } else {
                None
            }
        }
}

/// The slots after the empty ones among the first `upto` have been
/// removed, from the last of them down to the first, each by moving the
/// last slot into its place.
pub open spec fn compacted<P>(slots: Seq<Option<P>>, upto: nat) -> Seq<Option<P>>
    decreases upto,
{
    if upto == 0 || upto > slots.len() {
        slots
    } else if slots[upto - 1] is None {
        compacted(slots.update(upto - 1, slots.last()).drop_last(), (upto - 1) as nat)
    } else {
        compacted(slots, (upto - 1) as nat)
    }
}

/// Whether every slot holds a connection that can be polled.
pub open spec fn all_live<P: Pollable>(slots: Seq<Option<P>>) -> bool {
    forall|i: int| 0 <= i < slots.len() ==> (#[trigger] slots[i]) is Some && slots[i]->0.can_poll()
}

/// Whether a pass over the connections `before` can leave the slots
/// `polled` after the polls and `after` once the empty slots are removed.
pub open spec fn pump_pass<P: Pollable>(
    before: Seq<Option<P>>,
    polled: Seq<Option<P>>,
    after: Seq<Option<P>>,
) -> bool {
    &&& polled.len() == before.len()
    &&& forall|i: int| 0 <= i < polled.len() ==> pumped(before[i]->0, #[trigger] polled[i])
    &&& after == compacted(polled, polled.len())
}

/// One pass over a worker's connections: each is polled once, in the order
/// of the slots; those that answered `NotReady` stay, the others are
/// dropped and their slots removed.
pub fn pump_connections<P: Pollable>(connections: &mut Vec<Option<P>>)
    requires
        all_live(old(connections)@),
    ensures
        all_live(final(connections)@),
        exists|polled: Seq<Option<P>>| #[trigger]
            pump_pass(old(connections)@, polled, final(connections)@),
{
    let mut at: usize = 0;
    while at < connections.len()
        invariant
            at <= connections@.len(),
            connections@.len() == old(connections)@.len(),
            forall|i: int|
                at <= i < connections@.len() ==> #[trigger] connections@[i] == old(
                    connections,
                )@[i],
            all_live(old(connections)@),
            forall|i: int|
                0 <= i < at ==> pumped(old(connections)@[i]->0, #[trigger] connections@[i]),
            forall|i: int|
                0 <= i < at ==> (#[trigger] connections@[i]) is Some
                    ==> connections@[i]->0.can_poll(),
        decreases connections@.len() - at,
    {
        let mut current = match connections[at].take() {
            Some(current) => current,
            None => unreached(),
        };
        let ghost before = current;
        let outcome = current.poll();
        proof {
            assert(before.steps(&current, outcome));
        }
        if let Ok(PollResult::NotReady) = outcome {
            connections[at] = Some(current);
        }
        at = at + 1;
    }
    let ghost polled = connections@;
    let mut n: usize = connections.len();
    while n > 0
        invariant
            n <= connections@.len(),
            compacted(connections@, n as nat) == compacted(polled, polled.len()),
            forall|i: int|
                0 <= i < connections@.len() ==> (#[trigger] connections@[i]) is Some
                    ==> connections@[i]->0.can_poll(),
            forall|i: int| n <= i < connections@.len() ==> (#[trigger] connections@[i]) is Some,
        decreases n,
    {
        n = n - 1;
        if connections[n].is_none() {
            connections.swap_remove(n);
        }
    }
    proof {
        assert(pump_pass(old(connections)@, polled, connections@));
    }
}

/// The computation that serves one stream: it binds the stream to a
/// transport, then runs the connection over it.
pub fn bind_connection<P, H, S>(proto: &P, handler: Arc<H>, stream: S) -> (serving: AndThen<
    <P::Result as IntoPollable>::Pollable,
    impl FnOnce(P::Transport) -> Connection<H, P::Transport>,
    Connection<H, P::Transport>,
>) where
    S: Read + Write,
    P: BindTransport<S>,
    H: Handler<Request = P::Request, Response = P::Response>,
    H::Error: From<<P::Transport as Sink>::Error>,
    H::Error: From<<P::Transport as Pollable>::Error>,
    H::Error: From<<P::Result as IntoPollable>::Error>,

    requires
        forall|transport: P::Transport| #[trigger] Pollable::can_poll(&transport),
    ensures
        serving.can_poll(),
        serving matches AndThen::First(binding, make) && exists|result: P::Result|
            {
                &&& #[trigger] proto.binds(stream, result)
                &&& result.lifts(binding)
                &&& forall|transport: P::Transport, connection: Connection<H, P::Transport>|
                    call_ensures(make, (transport,), connection) ==> connection == Connection::<
                        H,
                        P::Transport,
                    >::Reading(transport, handler)
            },
{
    let result = proto.bind_transport(stream);
    proof {
        assert(proto.binds(stream, result));
    }
    let binding = result.into_pollable();
    proof {
        assert(result.lifts(binding));
    }
    let make = move |transport: P::Transport| -> (connection: Connection<H, P::Transport>)
        ensures
            connection == Connection::<H, P::Transport>::Reading(transport, handler),
        { Connection::new(transport, handler) };
    binding.and_then(make)
}

/// The slots with the connection that came in, if any, after the last.
pub open spec fn joined<C>(slots: Seq<Option<C>>, arrived: Option<C>) -> Seq<Option<C>> {
    match arrived {
        Some(connection) => slots.push(Some(connection)),
        None => slots,
    }
}

/// How a worker waits for the next stream.
#[derive(Debug, Clone, Copy, PartialEq, Eq, Structural)]
pub enum Receive {
    /// It has nothing to do: it waits until a stream comes.
    Blocking,
    /// It has connections to pump: it takes a stream only if one is there.
    Polling,
}

/// One worker's connections. Each of them can be polled.
pub struct Worker<C: Pollable> {
    connections: Vec<Option<C>>,
}

impl<C: Pollable> Worker<C> {
    /// Every slot holds a connection that can be polled.
    #[verifier::type_invariant]
    spec fn live(&self) -> bool {
        all_live(self.connections@)
    }

    /// The slots of the worker.
    pub closed spec fn slots(&self) -> Seq<Option<C>> {
        self.connections@
    }

    /// A worker without connections.
    pub fn new() -> (worker: Worker<C>)
        ensures
            worker.slots().len() == 0,
    {
        Worker { connections: Vec::new() }
    }

    /// The connections of the worker.
    pub fn connections(&self) -> (connections: &Vec<Option<C>>)
        ensures
            connections@ == self.slots(),
            all_live(connections@),
    {
        proof {
            use_type_invariant(self);
        }
        &self.connections
    }

    /// How to wait for the next stream: blocking when there is no
    /// connection to pump, else without blocking.
    pub fn receive(&self) -> (how: Receive)
        ensures
            how == if self.slots().len() == 0 {
                Receive::Blocking
            } else {
                Receive::Polling
            },
    {
        if self.connections.len() == 0 {
            Receive::Blocking
        } else {
            Receive::Polling
        }
    }

    /// One turn of the worker: the connection that came in, if any, takes
    /// the slot after the last, then every connection is pumped.
    pub fn turn(&mut self, arrived: Option<C>)
        requires
            arrived matches Some(connection) ==> connection.can_poll(),
        ensures
            exists|polled: Seq<Option<C>>| #[trigger]
                pump_pass(joined(old(self).slots(), arrived), polled, final(self).slots()),
    {
        proof {
            use_type_invariant(&*self);
        }
        // The connections are taken out, pumped, and put back, so that the
        // worker holds connections that can be polled at any time.
        let mut connections: Vec<Option<C>> = Vec::new();
        std::mem::swap(&mut connections, &mut self.connections);
        if let Some(connection) = arrived {
            connections.push(Some(connection));
        }
        let ghost slots = connections@;
        pump_connections(&mut connections);
        let ghost pumped = connections@;
        std::mem::swap(&mut connections, &mut self.connections);
        proof {
            let polled = choose|polled: Seq<Option<C>>| #[trigger]
                pump_pass(slots, polled, pumped);
            assert(pump_pass(joined(old(self).slots(), arrived), polled, self.slots()));
        }
    }
}

} // verus!
