//! What answers requests.

use vstd::prelude::*;
use crate::pollable::{IntoPollable, Pollable};

verus! {

/// A function from a request to the computation of its response. One
/// handler serves every connection, so it takes `&self`.
pub trait Handler {
    type Request;

    type Response;

    type Error;

    type Pollable: IntoPollable<Item = Self::Response, Error = Self::Error>;

    /// Whether `handle` can give `response` for `request`.
    open spec fn handles(&self, request: Self::Request, response: Self::Pollable) -> bool {
        true
    }

    /// Starts the computation of the response. What it gives lifts to a
    /// computation that can be polled.
    fn handle(&self, request: Self::Request) -> (response: Self::Pollable)
        ensures
            self.handles(request, response),
            forall|pollable: <Self::Pollable as IntoPollable>::Pollable| #[trigger]
                response.lifts(pollable) ==> pollable.can_poll(),
    ;
}

} // verus!
