//! A small framework for network servers: computations that are driven by
//! polling, a transport that frames a byte stream with a codec, the state
//! machine of a connection, the decisions of a pool of workers, and an
//! HTTP/1.x parser.

pub mod and_then;
pub mod bind_transport;
pub mod codec;
pub mod connection;
pub mod framed;
pub mod handler;
pub mod http;
pub mod join;
pub mod map_err;
pub mod pollable;
pub mod result;
pub mod server;
pub mod sink;
pub mod stream;
pub mod thread_pool;
pub mod twist;
