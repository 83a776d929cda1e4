use vstd::prelude::*;

verus! {

/// The outcome of one non-blocking poll: a value, or nothing yet.
#[derive(Debug, PartialEq, Eq)]
pub enum PollResult<T> {
    NotReady,
    Ready(T),
}

impl<T> PollResult<T> {
    /// Whether a value was produced.
    pub fn is_ready(&self) -> (ready: bool)
        ensures
            ready == (*self is Ready),
    {
        match self {
            PollResult::Ready(_) => true,
            PollResult::NotReady => false,
        }
    }
}

} // verus!
