//! The combinator that adapts the error of a computation.

use vstd::prelude::*;
use crate::pollable::{Poll, Pollable};

verus! {

/// A computation and the function that its error, if it gives one, is
/// passed through. The function is used once.
pub struct MapErr<L, F>(pub L, pub Option<F>);

impl<L, F> MapErr<L, F> {
    /// The computation `l` with `f` for its error.
    pub fn new(l: L, f: F) -> (mapped: MapErr<L, F>)
        ensures
            mapped == MapErr(l, Some(f)),
    {
        MapErr(l, Some(f))
    }
}

impl<L, F, E> Pollable for MapErr<L, F> where L: Pollable, F: FnOnce(L::Error) -> E {
    type Item = L::Item;

    type Error = E;

    open spec fn can_poll(&self) -> bool {
        &&& self.0.can_poll()
        &&& self.1 is Some
        &&& forall|e: L::Error| call_requires(self.1->0, (e,))
    }

    open spec fn steps(&self, next: &Self, outcome: Poll<L::Item, E>) -> bool {
        match outcome {
            Ok(value) => self.0.steps(&next.0, Ok(value)) && next.1 == self.1,
            Err(mapped) => exists|e: L::Error|
                {
                    &&& #[trigger] self.0.steps(&next.0, Err(e))
                    &&& self.1 is Some
                    &&& call_ensures(self.1->0, (e,), mapped)
                    &&& next.1 is None
                },
        }
    }

    /// Polls the computation; a value or `NotReady` passes through, an error
    /// is mapped. After an error the combinator cannot be polled again.
    fn poll(&mut self) -> (outcome: Poll<L::Item, E>)
        ensures
            outcome is Err ==> !final(self).can_poll(),
    {
        match self.0.poll() {
            Ok(value) => Ok(value),
            Err(e) => match self.1.take() {
                Some(f) => {
                    let mapped = f(e);
                    assert(old(self).0.steps(&self.0, Err(e)));
                    Err(mapped)
                },
                None => unreached(),
            },
        }
    }
}

} // verus!
