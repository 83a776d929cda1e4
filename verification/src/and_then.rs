//! The combinator that runs one computation after another.

use vstd::prelude::*;
use crate::pollable::{Poll, Pollable, PollableResult, completes_in, converts};
use crate::result::PollResult;

verus! {

/// A computation, and the function that makes the next one of its value.
pub enum AndThen<L, F, R> {
    /// The first computation is running; the function has not been used.
    First(L, F),
    /// The second computation is running.
    Second(R),
    /// The value or an error has been given.
    Done,
}

impl<L, F, R> AndThen<L, F, R> where L: Pollable, F: FnOnce(L::Item) -> R {
    /// The chain of `left` and what `f` makes of its value.
    pub fn new(left: L, f: F) -> (chained: AndThen<L, F, R>)
        ensures
            chained == AndThen::<L, F, R>::First(left, f),
    {
        AndThen::First(left, f)
    }
}

/// What the chain does once the second computation has been polled for the
/// first time and gave `outcome`, leaving `right`: the state it goes to.
pub open spec fn chained_state<L, F, R: Pollable>(
    right: R,
    outcome: Poll<R::Item, R::Error>,
) -> AndThen<L, F, R> {
    match outcome {
        Ok(PollResult::NotReady) => AndThen::Second(right),
        _ => AndThen::Done,
    }
}

impl<L, F, R> Pollable for AndThen<L, F, R> where
    L: Pollable,
    F: FnOnce(L::Item) -> R,
    R: Pollable,
    R::Error: From<L::Error>,
 {
    type Item = R::Item;

    type Error = R::Error;

    open spec fn can_poll(&self) -> bool {
        match *self {
            AndThen::First(left, f) => {
                &&& left.can_poll()
                &&& forall|value: L::Item| call_requires(f, (value,))
                &&& forall|value: L::Item, right: R| #[trigger]
                    call_ensures(f, (value,), right) ==> right.can_poll()
            },
            AndThen::Second(right) => right.can_poll(),
            AndThen::Done => false,
        }
    }

    open spec fn steps(&self, next: &Self, outcome: Poll<R::Item, R::Error>) -> bool {
        match *self {
            AndThen::First(left, f) => exists|after: L, polled: Poll<L::Item, L::Error>|
                {
                    &&& #[trigger] left.steps(&after, polled)
                    &&& match polled {
                        Err(e) => {
                            &&& *next is Done
                            &&& outcome is Err
                            &&& converts(e, outcome->Err_0)
                        },
                        Ok(PollResult::NotReady) => {
                            &&& *next == AndThen::<L, F, R>::First(after, f)
                            &&& outcome == Ok::<PollResult<R::Item>, R::Error>(
                                PollResult::NotReady,
                            )
                        },
                        Ok(PollResult::Ready(value)) => exists|made: R, right: R|
                            {
                                &&& call_ensures(f, (value,), made)
                                &&& #[trigger] made.steps(&right, outcome)
                                &&& *next == chained_state::<L, F, R>(right, outcome)
                            },
                    }
                },
            AndThen::Second(right) => {
                &&& *next is Second
                &&& right.steps(&next->Second_0, outcome)
            },
            AndThen::Done => false,
        }
    }

    /// Polls the first computation; once it gives its value, makes the
    /// second of it and polls that one at once. After the second has been
    /// made, polls the second. A chain that gives its value or an error in
    /// the poll in which it finishes its first computation cannot be polled
    /// again.
    fn poll(&mut self) -> (outcome: Poll<R::Item, R::Error>)
        ensures
            *old(self) is First && !(outcome matches Ok(PollResult::NotReady))
                ==> !final(self).can_poll(),
            *old(self) is Second ==> *final(self) is Second,
    {
        let mut state = AndThen::Done;
        std::mem::swap(self, &mut state);
        match state {
            AndThen::First(mut left, f) => {
                let ghost before = left;
                let polled = left.poll();
                proof {
                    assert(before.steps(&left, polled));
                }
                match polled {
                    Ok(PollResult::Ready(value)) => {
                        let mut right = f(value);
                        let ghost made = right;
                        let outcome = right.poll();
                        proof {
                            assert(made.steps(&right, outcome));
                        }
                        if let Ok(PollResult::NotReady) = outcome {
                            *self = AndThen::Second(right);
                        }
                        outcome
                    },
                    Ok(PollResult::NotReady) => {
                        *self = AndThen::First(left, f);
                        Ok(PollResult::NotReady)
                    },
                    Err(e) => Err(R::Error::from(e)),
                }
            },
            AndThen::Second(mut right) => {
                let outcome = right.poll();
                *self = AndThen::Second(right);
                outcome
            },
            AndThen::Done => unreached(),
        }
    }
}

/// A chain that has made its second computation gives its value when the
/// second computation does.
pub proof fn lemma_second_completes<L, F, R>(right: R, polls: nat, value: R::Item) where
    L: Pollable,
    F: FnOnce(L::Item) -> R,
    R: Pollable,
    R::Error: From<L::Error>,

    requires
        completes_in(right, polls, value),
    ensures
        completes_in(AndThen::<L, F, R>::Second(right), polls, value),
    decreases polls,
{
    let chain = AndThen::<L, F, R>::Second(right);
    assert forall|next: AndThen<L, F, R>, outcome: Poll<R::Item, R::Error>| #[trigger]
        chain.steps(&next, outcome) implies if polls == 1 {
        outcome == Ok::<PollResult<R::Item>, R::Error>(PollResult::Ready(value))
    } else {
        &&& outcome == Ok::<PollResult<R::Item>, R::Error>(PollResult::NotReady)
        &&& completes_in(next, (polls - 1) as nat, value)
    } by {
        assert(right.steps(&next->Second_0, outcome));
        if polls > 1 {
            lemma_second_completes::<L, F, R>(next->Second_0, (polls - 1) as nat, value);
        }
    }
}

/// Where the first computation gives `a` at its poll number `first`, and
/// the function makes of `a` a computation that gives `b` at its poll
/// number `second`, the chain gives `b` at poll number `first + second - 1`
/// and `NotReady` before: the second computation is polled in the same
/// poll in which the first gives its value.
pub proof fn lemma_and_then_completes<L, F, R>(
    left: L,
    f: F,
    first: nat,
    a: L::Item,
    made: R,
    second: nat,
    b: R::Item,
) where L: Pollable, F: FnOnce(L::Item) -> R, R: Pollable, R::Error: From<L::Error>
    requires
        completes_in(left, first, a),
        forall|value: L::Item| call_requires(f, (value,)),
        forall|value: L::Item, right: R| #[trigger]
            call_ensures(f, (value,), right) ==> right.can_poll(),
        forall|right: R| #[trigger] call_ensures(f, (a,), right) ==> right == made,
        completes_in(made, second, b),
    ensures
        completes_in(AndThen::<L, F, R>::First(left, f), (first + second - 1) as nat, b),
    decreases first,
{
    let chain = AndThen::<L, F, R>::First(left, f);
    let polls = (first + second - 1) as nat;
    assert forall|next: AndThen<L, F, R>, outcome: Poll<R::Item, R::Error>| #[trigger]
        chain.steps(&next, outcome) implies if polls == 1 {
        outcome == Ok::<PollResult<R::Item>, R::Error>(PollResult::Ready(b))
    } else {
        &&& outcome == Ok::<PollResult<R::Item>, R::Error>(PollResult::NotReady)
        &&& completes_in(next, (polls - 1) as nat, b)
    } by {
        let (after, polled) = choose|after: L, polled: Poll<L::Item, L::Error>|
            {
                &&& #[trigger] left.steps(&after, polled)
                &&& match polled {
                    Err(e) => {
                        &&& next is Done
                        &&& outcome is Err
                        &&& converts(e, outcome->Err_0)
                    },
                    Ok(PollResult::NotReady) => {
                        &&& next == AndThen::<L, F, R>::First(after, f)
                        &&& outcome == Ok::<PollResult<R::Item>, R::Error>(PollResult::NotReady)
                    },
                    Ok(PollResult::Ready(value)) => exists|fresh: R, right: R|
                        {
                            &&& call_ensures(f, (value,), fresh)
                            &&& #[trigger] fresh.steps(&right, outcome)
                            &&& next == chained_state::<L, F, R>(right, outcome)
                        },
                }
            };
        if first == 1 {
            let (fresh, right) = choose|fresh: R, right: R|
                {
                    &&& call_ensures(f, (a,), fresh)
                    &&& #[trigger] fresh.steps(&right, outcome)
                    &&& next == chained_state::<L, F, R>(right, outcome)
                };
            assert(fresh == made);
            if second > 1 {
                lemma_second_completes::<L, F, R>(right, (second - 1) as nat, b);
            }
        } else {
            lemma_and_then_completes(after, f, (first - 1) as nat, a, made, second, b);
        }
    }
}

/// A known value chained to a function that makes a known value of it
/// gives that second value at the first poll.
pub proof fn lemma_and_then_of_values<T, U, E, F>(x: T, f: F, y: U) where
    F: FnOnce(T) -> PollableResult<U, E>,

    requires
        forall|value: T| call_requires(f, (value,)),
        forall|value: T, right: PollableResult<U, E>| #[trigger]
            call_ensures(f, (value,), right) ==> right.can_poll(),
        forall|right: PollableResult<U, E>| #[trigger]
            call_ensures(f, (x,), right) ==> right == PollableResult::<U, E>::Value(Some(y)),
    ensures
        completes_in(
            AndThen::<PollableResult<T, E>, F, PollableResult<U, E>>::First(
                PollableResult::Value(Some(x)),
                f,
            ),
            1,
            y,
        ),
{
    lemma_and_then_completes(
        PollableResult::<T, E>::Value(Some(x)),
        f,
        1,
        x,
        PollableResult::<U, E>::Value(Some(y)),
        1,
        y,
    );
}


} // verus!
