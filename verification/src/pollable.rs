//! The polling primitive: a computation that is asked, without blocking,
//! whether it has finished.

use vstd::prelude::*;
use vstd::std_specs::convert::FromSpec;
use crate::and_then::AndThen;
use crate::join::Join;
use crate::map_err::MapErr;
use crate::result::PollResult;

verus! {

/// What one poll gives: a value, nothing yet, or an error.
pub type Poll<T, E> = Result<PollResult<T>, E>;

/// Whether `to` is what `From` makes of `from`, as far as the conversion
/// has a specification.
pub open spec fn converts<A, B: From<A>>(from: A, to: B) -> bool {
    B::obeys_from_spec() ==> to == B::from_spec(from)
}

/// A computation that is driven by polling.
///
/// `can_poll` says whether `poll` may be called: a computation that is used
/// once and has given its value or its error must not be polled again.
/// `steps` relates the state before a poll, the state after it, and what the
/// poll gave; for a computation that waits on the outside world it admits
/// several outcomes. An implementation that says nothing of itself may
/// always be polled, and any outcome is possible for it.
pub trait Pollable {
    type Item;

    type Error;

    /// Whether the computation may be polled.
    open spec fn can_poll(&self) -> bool {
        true
    }

    /// Whether one poll can take the computation from `self` to `next` and
    /// give `outcome`.
    open spec fn steps(&self, next: &Self, outcome: Poll<Self::Item, Self::Error>) -> bool {
        true
    }

    /// Asks for the value without blocking. A computation that answered
    /// `NotReady` may be polled again.
    fn poll(&mut self) -> (outcome: Poll<Self::Item, Self::Error>)
        requires
            old(self).can_poll(),
        ensures
            old(self).steps(final(self), outcome),
            outcome matches Ok(PollResult::NotReady) ==> final(self).can_poll(),
    ;
}

/// The combinators, for every computation.
pub trait Combine: Pollable + Sized {
    /// Runs `self` and `other` side by side; the value is the pair of theirs.
    fn join<R>(self, other: R) -> (joined: Join<Self, R>) where
        R: Pollable,
        R::Error: From<Self::Error>,

        ensures
            joined == Join::<Self, R>::spec_new(self, other),
    {
        Join::new(self, other)
    }

    /// Runs `self`, then the computation that `f` makes of its value.
    fn and_then<F, R>(self, f: F) -> (chained: AndThen<Self, F, R>) where
        F: FnOnce(Self::Item) -> R,
        R: Pollable,
        R::Error: From<Self::Error>,

        ensures
            chained == AndThen::<Self, F, R>::First(self, f),
    {
        AndThen::new(self, f)
    }

    /// Runs `self` and passes its error, if it gives one, through `f`.
    fn map_err<F, E>(self, f: F) -> (mapped: MapErr<Self, F>) where
        F: FnOnce(Self::Error) -> E,

        ensures
            mapped == MapErr(self, Some(f)),
    {
        MapErr::new(self, f)
    }
}

impl<P: Pollable> Combine for P {
}

impl<P: Pollable + ?Sized> Pollable for Box<P> {
    type Item = P::Item;

    type Error = P::Error;

    open spec fn can_poll(&self) -> bool {
        (**self).can_poll()
    }

    open spec fn steps(&self, next: &Self, outcome: Poll<P::Item, P::Error>) -> bool {
        (**self).steps(&**next, outcome)
    }

    /// Polls the computation in the box.
    fn poll(&mut self) -> (outcome: Poll<P::Item, P::Error>) {
        (&mut **self).poll()
    }
}

/// What can be turned into a computation to poll: a computation itself, or
/// a result that is already known.
pub trait IntoPollable: Sized {
    type Item;

    type Error;

    type Pollable: Pollable<Item = Self::Item, Error = Self::Error>;

    /// Whether `into_pollable` can give `pollable`.
    open spec fn lifts(self, pollable: Self::Pollable) -> bool {
        true
    }

    /// Turns `self` into a computation.
    fn into_pollable(self) -> (pollable: Self::Pollable)
        ensures
            self.lifts(pollable),
    ;
}

impl<P: Pollable> IntoPollable for P {
    type Item = P::Item;

    type Error = P::Error;

    type Pollable = P;

    open spec fn lifts(self, pollable: P) -> bool {
        pollable == self
    }

    /// A computation is its own computation.
    fn into_pollable(self) -> (pollable: P) {
        self
    }
}

impl<T, E> IntoPollable for Result<T, E> {
    type Item = T;

    type Error = E;

    type Pollable = PollableResult<T, E>;

    open spec fn lifts(self, pollable: PollableResult<T, E>) -> bool {
        pollable == match self {
            Ok(value) => PollableResult::<T, E>::Value(Some(value)),
            Err(error) => PollableResult::<T, E>::Failure(Some(error)),
        }
    }

    /// A known result becomes a computation that gives it at the first poll.
    fn into_pollable(self) -> (pollable: PollableResult<T, E>) {
        match self {
            Ok(value) => PollableResult::Value(Some(value)),
            Err(error) => PollableResult::Failure(Some(error)),
        }
    }
}

/// A result that is already known, as a computation: it gives the result at
/// the first poll and holds nothing after that.
pub enum PollableResult<T, E> {
    /// A value, until it has been given.
    Value(Option<T>),
    /// An error, until it has been given.
    Failure(Option<E>),
}

impl<T, E> Pollable for PollableResult<T, E> {
    type Item = T;

    type Error = E;

    open spec fn can_poll(&self) -> bool {
        match *self {
            PollableResult::Value(value) => value is Some,
            PollableResult::Failure(error) => error is Some,
        }
    }

    open spec fn steps(&self, next: &Self, outcome: Poll<T, E>) -> bool {
        match *self {
            PollableResult::Value(value) => {
                &&& value is Some
                &&& outcome == Ok::<PollResult<T>, E>(PollResult::Ready(value->0))
                &&& *next == PollableResult::<T, E>::Value(None)
            },
            PollableResult::Failure(error) => {
                &&& error is Some
                &&& outcome == Err::<PollResult<T>, E>(error->0)
                &&& *next == PollableResult::<T, E>::Failure(None)
            },
        }
    }

    /// Gives the result, once.
    fn poll(&mut self) -> (outcome: Poll<T, E>)
        ensures
            !final(self).can_poll(),
    {
        match self {
            PollableResult::Value(value) => match value.take() {
                Some(value) => Ok(PollResult::Ready(value)),
                None => unreached(),
            },
            PollableResult::Failure(error) => match error.take() {
                Some(error) => Err(error),
                None => unreached(),
            },
        }
    }
}

/// Whether the computation gives `value` at poll number `polls`, counted
/// from one, and `NotReady` at every poll before it, whatever it does.
pub open spec fn completes_in<P: Pollable>(pollable: P, polls: nat, value: P::Item) -> bool
    decreases polls,
{
    &&& polls > 0
    &&& pollable.can_poll()
    &&& forall|next: P, outcome: Poll<P::Item, P::Error>| #[trigger]
        pollable.steps(&next, outcome) ==> if polls == 1 {
            outcome == Ok::<PollResult<P::Item>, P::Error>(PollResult::Ready(value))
        } else {
            &&& outcome == Ok::<PollResult<P::Item>, P::Error>(PollResult::NotReady)
            &&& completes_in(next, (polls - 1) as nat, value)
        }
}

/// A known value, lifted to a computation, is given at the first poll.
pub proof fn lemma_value_completes<T, E>(value: T)
    ensures
        completes_in(PollableResult::<T, E>::Value(Some(value)), 1, value),
{
}

/// A known result is given once: the poll that gives it leaves a
/// computation that must not be polled again.
pub proof fn lemma_result_is_given_once<T, E>(
    before: PollableResult<T, E>,
    after: PollableResult<T, E>,
    outcome: Poll<T, E>,
)
    requires
        before.steps(&after, outcome),
    ensures
        !(outcome matches Ok(PollResult::NotReady)),
        !after.can_poll(),
{
}


} // verus!
