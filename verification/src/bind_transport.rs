//! What makes a transport of a byte stream.

use vstd::prelude::*;
use crate::pollable::{IntoPollable, Pollable};
use crate::sink::Sink;
use crate::stream::{Read, Write};

verus! {

/// A protocol: it binds a byte stream to a transport that gives requests
/// and takes responses. The transport comes as a computation, so that a
/// protocol can shake hands first.
pub trait BindTransport<S> where S: Read + Write {
    type Request;

    type Response;

    type Transport: Pollable<Item = Self::Request> + Sink<Item = Self::Response>;

    type Result: IntoPollable<Item = Self::Transport>;

    /// Whether `bind_transport` can give `result` for the stream `s`.
    open spec fn binds(&self, s: S, result: Self::Result) -> bool {
        true
    }

    /// Starts the making of the transport. What it gives lifts to a
    /// computation that can be polled.
    fn bind_transport(&self, s: S) -> (result: Self::Result)
        ensures
            self.binds(s, result),
            forall|pollable: <Self::Result as IntoPollable>::Pollable| #[trigger]
                result.lifts(pollable) ==> pollable.can_poll(),
    ;
}

} // verus!
