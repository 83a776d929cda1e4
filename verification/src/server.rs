//! The server: a protocol that is shared by every worker.

use std::sync::Arc;
use vstd::prelude::*;

verus! {

/// A server for one protocol. It is served on a listener by handing each
/// accepted stream to the pool of workers.
pub struct TcpServer<P> {
    proto: Arc<P>,
}

impl<P> TcpServer<P> {
    /// The protocol of the server.
    pub closed spec fn spec_proto(&self) -> P {
        *self.proto
    }

    /// A server for `proto`.
    pub fn new(proto: P) -> (server: TcpServer<P>)
        ensures
            server.spec_proto() == proto,
    {
        TcpServer { proto: Arc::new(proto) }
    }

    /// The protocol, shared.
    pub fn proto(&self) -> (proto: Arc<P>)
        ensures
            *proto == self.spec_proto(),
    {
        self.proto.clone()
    }
}

} // verus!
