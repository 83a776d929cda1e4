//! The combinator that runs two computations side by side.

use vstd::prelude::*;
use crate::pollable::{Poll, Pollable, completes_in, converts};
use crate::result::PollResult;

verus! {

/// Which side of a join has given its value, and the value.
pub enum JoinState<L, R> {
    Neither,
    Left(L),
    Right(R),
    Done,
}

/// Two computations that run side by side. The join gives the pair of their
/// values once both have given theirs, and the first error of either.
pub struct Join<L: Pollable, R: Pollable> {
    pub left: L,
    pub right: R,
    pub state: JoinState<L::Item, R::Item>,
}

impl<L: Pollable, R: Pollable> Join<L, R> {
    /// The join of two computations that have not been polled.
    pub open spec fn spec_new(left: L, right: R) -> Join<L, R> {
        Join { left, right, state: JoinState::Neither }
    }

    /// The join of two computations that have not been polled.
    pub fn new(left: L, right: R) -> (joined: Join<L, R>)
        ensures
            joined == Self::spec_new(left, right),
    {
        Join { left, right, state: JoinState::Neither }
    }

    /// Gives the two computations back.
    pub fn into_inner(self) -> (sides: (L, R))
        ensures
            sides == (self.left, self.right),
    {
        (self.left, self.right)
    }
}

/// What a join does once the right side has been polled and gave `right`,
/// where the left side's value is `left` if it has one: the state it goes
/// to and what it gives.
pub open spec fn join_settle<A, B, E>(left: Option<A>, right: Poll<B, E>) -> (
    JoinState<A, B>,
    Poll<(A, B), E>,
) {
    match right {
        Err(e) => (JoinState::Done, Err(e)),
        Ok(PollResult::Ready(b)) => match left {
            Some(a) => (JoinState::Done, Ok(PollResult::Ready((a, b)))),
            None => (JoinState::Right(b), Ok(PollResult::NotReady)),
        },
        Ok(PollResult::NotReady) => match left {
            Some(a) => (JoinState::Left(a), Ok(PollResult::NotReady)),
            None => (JoinState::Neither, Ok(PollResult::NotReady)),
        },
    }
}

impl<L, R> Pollable for Join<L, R> where L: Pollable, R: Pollable, R::Error: From<L::Error> {
    type Item = (L::Item, R::Item);

    type Error = R::Error;

    open spec fn can_poll(&self) -> bool {
        match self.state {
            JoinState::Neither => self.left.can_poll() && self.right.can_poll(),
            JoinState::Left(_) => self.right.can_poll(),
            JoinState::Right(_) => self.left.can_poll(),
            JoinState::Done => false,
        }
    }

    open spec fn steps(&self, next: &Self, outcome: Poll<(L::Item, R::Item), R::Error>) -> bool {
        match self.state {
            JoinState::Neither => exists|left: Poll<L::Item, L::Error>|
                {
                    &&& #[trigger] self.left.steps(&next.left, left)
                    &&& match left {
                        Err(e) => {
                            &&& next.right == self.right
                            &&& next.state is Done
                            &&& outcome is Err
                            &&& converts(e, outcome->Err_0)
                        },
                        Ok(PollResult::Ready(a)) => exists|right: Poll<R::Item, R::Error>|
                            {
                                &&& #[trigger] self.right.steps(&next.right, right)
                                &&& (next.state, outcome) == join_settle(Some(a), right)
                            },
                        Ok(PollResult::NotReady) => exists|right: Poll<R::Item, R::Error>|
                            {
                                &&& #[trigger] self.right.steps(&next.right, right)
                                &&& (next.state, outcome) == join_settle(
                                    None::<L::Item>,
                                    right,
                                )
                            },
                    }
                },
            JoinState::Left(a) => {
                &&& next.left == self.left
                &&& exists|right: Poll<R::Item, R::Error>|
                    {
                        &&& #[trigger] self.right.steps(&next.right, right)
                        &&& (next.state, outcome) == join_settle(Some(a), right)
                    }
            },
            JoinState::Right(b) => {
                &&& next.right == self.right
                &&& exists|left: Poll<L::Item, L::Error>|
                    {
                        &&& #[trigger] self.left.steps(&next.left, left)
                        &&& match left {
                            Err(e) => {
                                &&& next.state is Done
                                &&& outcome is Err
                                &&& converts(e, outcome->Err_0)
                            },
                            Ok(PollResult::Ready(a)) => {
                                &&& next.state is Done
                                &&& outcome == Ok::<PollResult<(L::Item, R::Item)>, R::Error>(
                                    PollResult::Ready((a, b)),
                                )
                            },
                            Ok(PollResult::NotReady) => {
                                &&& next.state == JoinState::<L::Item, R::Item>::Right(b)
                                &&& outcome == Ok::<PollResult<(L::Item, R::Item)>, R::Error>(
                                    PollResult::NotReady,
                                )
                            },
                        }
                    }
            },
            JoinState::Done => false,
        }
    }

    /// Polls each side that has not given its value yet, the left one first.
    /// Gives the pair when both values are there, and the first error of
    /// either side; after a pair or an error the join cannot be polled again.
    fn poll(&mut self) -> (outcome: Poll<(L::Item, R::Item), R::Error>)
        ensures
            !(outcome matches Ok(PollResult::NotReady)) ==> !final(self).can_poll(),
    {
        let mut state = JoinState::Done;
        std::mem::swap(&mut self.state, &mut state);
        let ghost mut polled_sides: (Poll<L::Item, L::Error>, Poll<R::Item, R::Error>) =
            arbitrary();
        let next = match state {
            JoinState::Neither => {
                let left = match self.left.poll() {
                    Ok(left) => left,
                    Err(e) => {
                        proof {
                            assert(old(self).left.steps(&self.left, Err(e)));
                        }
                        return Err(R::Error::from(e));
                    },
                };
                let polled = self.right.poll();
                proof {
                    assert(old(self).left.steps(&self.left, Ok(left)));
                    assert(old(self).right.steps(&self.right, polled));
                    polled_sides = (Ok(left), polled);
                }
                let right = match polled {
                    Ok(right) => right,
                    Err(e) => {
                        return Err(e);
                    },
                };
                match (left, right) {
                    (PollResult::Ready(a), PollResult::Ready(b)) => {
                        return Ok(PollResult::Ready((a, b)));
                    },
                    (PollResult::Ready(a), PollResult::NotReady) => JoinState::Left(a),
                    (PollResult::NotReady, PollResult::Ready(b)) => JoinState::Right(b),
                    (PollResult::NotReady, PollResult::NotReady) => JoinState::Neither,
                }
            },
            JoinState::Left(a) => {
                let polled = self.right.poll();
                proof {
                    assert(old(self).right.steps(&self.right, polled));
                }
                match polled {
                    Ok(PollResult::Ready(b)) => {
                        return Ok(PollResult::Ready((a, b)));
                    },
                    Ok(PollResult::NotReady) => JoinState::Left(a),
                    Err(e) => {
                        return Err(e);
                    },
                }
            },
            JoinState::Right(b) => {
                let polled = self.left.poll();
                proof {
                    assert(old(self).left.steps(&self.left, polled));
                }
                match polled {
                    Ok(PollResult::Ready(a)) => {
                        return Ok(PollResult::Ready((a, b)));
                    },
                    Ok(PollResult::NotReady) => JoinState::Right(b),
                    Err(e) => {
                        return Err(R::Error::from(e));
                    },
                }
            },
            JoinState::Done => unreached(),
        };
        self.state = next;
        proof {
            let done = Ok::<PollResult<(L::Item, R::Item)>, R::Error>(PollResult::NotReady);
            let waiting = Ok::<PollResult<R::Item>, R::Error>(PollResult::NotReady);
            match old(self).state {
                JoinState::Neither => {
                    let (left, right) = polled_sides;
                    assert(old(self).left.steps(&self.left, left));
                    assert(old(self).right.steps(&self.right, right));
                    match left {
                        Ok(PollResult::Ready(a)) => {
                            assert((self.state, done) == join_settle(Some(a), right));
                        },
                        _ => {
                            assert((self.state, done) == join_settle(None::<L::Item>, right));
                        },
                    }
                },
                JoinState::Left(a) => {
                    assert(old(self).right.steps(&self.right, waiting));
                    assert((self.state, done) == join_settle(Some(a), waiting));
                },
                JoinState::Right(b) => {
                    assert(old(self).left.steps(
                        &self.left,
                        Ok::<PollResult<L::Item>, L::Error>(PollResult::NotReady),
                    ));
                },
                JoinState::Done => {},
            }
        }
        Ok(PollResult::NotReady)
    }
}

/// A join gives its pair or its error once: the poll that gives either
/// leaves a join that must not be polled again.
pub proof fn lemma_join_finishes_once<L, R>(
    before: Join<L, R>,
    after: Join<L, R>,
    outcome: Poll<(L::Item, R::Item), R::Error>,
) where L: Pollable, R: Pollable, R::Error: From<L::Error>
    requires
        before.steps(&after, outcome),
        !(outcome matches Ok(PollResult::NotReady)),
    ensures
        !after.can_poll(),
{
}

/// How many polls a join still takes, by its state, where the left side
/// takes `left` more polls and the right side `right` more.
pub open spec fn polls_left<A, B>(state: JoinState<A, B>, left: nat, right: nat) -> nat {
    match state {
        JoinState::Neither => if left >= right {
            left
        } else {
            right
        },
        JoinState::Left(_) => right,
        JoinState::Right(_) => left,
        JoinState::Done => 0,
    }
}

/// Whether a join is on its way to the pair `(a, b)`: each side that has
/// not given its value yet gives it at its poll number `left` or `right`,
/// and a value that was given is the pair's.
pub open spec fn joining<L: Pollable, R: Pollable>(
    join: Join<L, R>,
    left: nat,
    right: nat,
    a: L::Item,
    b: R::Item,
) -> bool {
    match join.state {
        JoinState::Neither => completes_in(join.left, left, a) && completes_in(
            join.right,
            right,
            b,
        ),
        JoinState::Left(given) => given == a && completes_in(join.right, right, b),
        JoinState::Right(given) => given == b && completes_in(join.left, left, a),
        JoinState::Done => false,
    }
}

/// A join in any state gives the pair at the poll at which its slower side
/// gives its value, and `NotReady` before.
pub proof fn lemma_joining_completes<L, R>(
    join: Join<L, R>,
    left: nat,
    right: nat,
    a: L::Item,
    b: R::Item,
) where L: Pollable, R: Pollable, R::Error: From<L::Error>
    requires
        joining(join, left, right, a, b),
    ensures
        completes_in(join, polls_left(join.state, left, right), (a, b)),
    decreases left + right,
{
    let polls = polls_left(join.state, left, right);
    assert forall|next: Join<L, R>, outcome: Poll<(L::Item, R::Item), R::Error>| #[trigger]
        join.steps(&next, outcome) implies if polls == 1 {
        outcome == Ok::<PollResult<(L::Item, R::Item)>, R::Error>(PollResult::Ready((a, b)))
    } else {
        &&& outcome == Ok::<PollResult<(L::Item, R::Item)>, R::Error>(PollResult::NotReady)
        &&& completes_in(next, (polls - 1) as nat, (a, b))
    } by {
        match join.state {
            JoinState::Neither => {
                let lo = choose|lo: Poll<L::Item, L::Error>|
                    {
                        &&& #[trigger] join.left.steps(&next.left, lo)
                        &&& match lo {
                            Err(e) => {
                                &&& next.right == join.right
                                &&& next.state is Done
                                &&& outcome is Err
                                &&& converts(e, outcome->Err_0)
                            },
                            Ok(PollResult::Ready(x)) => exists|ro: Poll<R::Item, R::Error>|
                                {
                                    &&& #[trigger] join.right.steps(&next.right, ro)
                                    &&& (next.state, outcome) == join_settle(Some(x), ro)
                                },
                            Ok(PollResult::NotReady) => exists|ro: Poll<R::Item, R::Error>|
                                {
                                    &&& #[trigger] join.right.steps(&next.right, ro)
                                    &&& (next.state, outcome) == join_settle(
                                        None::<L::Item>,
                                        ro,
                                    )
                                },
                        }
                    };
                if left == 1 {
                    let ro = choose|ro: Poll<R::Item, R::Error>|
                        {
                            &&& #[trigger] join.right.steps(&next.right, ro)
                            &&& (next.state, outcome) == join_settle(Some(a), ro)
                        };
                    if right > 1 {
                        lemma_joining_completes(next, left, (right - 1) as nat, a, b);
                    }
                } else {
                    let ro = choose|ro: Poll<R::Item, R::Error>|
                        {
                            &&& #[trigger] join.right.steps(&next.right, ro)
                            &&& (next.state, outcome) == join_settle(None::<L::Item>, ro)
                        };
                    if right == 1 {
                        lemma_joining_completes(next, (left - 1) as nat, right, a, b);
                    } else {
                        lemma_joining_completes(
                            next,
                            (left - 1) as nat,
                            (right - 1) as nat,
                            a,
                            b,
                        );
                    }
                }
            },
            JoinState::Left(given) => {
                let ro = choose|ro: Poll<R::Item, R::Error>|
                    {
                        &&& #[trigger] join.right.steps(&next.right, ro)
                        &&& (next.state, outcome) == join_settle(Some(given), ro)
                    };
                if right > 1 {
                    lemma_joining_completes(next, left, (right - 1) as nat, a, b);
                }
            },
            JoinState::Right(given) => {
                let lo = choose|lo: Poll<L::Item, L::Error>|
                    {
                        &&& #[trigger] join.left.steps(&next.left, lo)
                        &&& match lo {
                            Err(e) => {
                                &&& next.state is Done
                                &&& outcome is Err
                                &&& converts(e, outcome->Err_0)
                            },
                            Ok(PollResult::Ready(x)) => {
                                &&& next.state is Done
                                &&& outcome == Ok::<PollResult<(L::Item, R::Item)>, R::Error>(
                                    PollResult::Ready((x, given)),
                                )
                            },
                            Ok(PollResult::NotReady) => {
                                &&& next.state == JoinState::<L::Item, R::Item>::Right(given)
                                &&& outcome == Ok::<PollResult<(L::Item, R::Item)>, R::Error>(
                                    PollResult::NotReady,
                                )
                            },
                        }
                    };
                if left > 1 {
                    lemma_joining_completes(next, (left - 1) as nat, right, a, b);
                }
            },
            JoinState::Done => {},
        }
    }
}

/// The join of a computation that gives its value at its poll number
/// `left` and one that gives its value at its poll number `right` gives
/// the pair of the values at the poll whose number is the larger of the
/// two, and `NotReady` at every poll before it.
pub proof fn lemma_join_completes<L, R>(
    left_side: L,
    right_side: R,
    left: nat,
    right: nat,
    a: L::Item,
    b: R::Item,
) where L: Pollable, R: Pollable, R::Error: From<L::Error>
    requires
        completes_in(left_side, left, a),
        completes_in(right_side, right, b),
    ensures
        completes_in(
            Join::spec_new(left_side, right_side),
            if left >= right {
                left
            } else {
                right
            },
            (a, b),
        ),
{
    lemma_joining_completes(Join::spec_new(left_side, right_side), left, right, a, b);
}


} // verus!
