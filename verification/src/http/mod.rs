//! HTTP/1.x request and response parsing, and the owned message types.

pub mod codec;
pub mod detached;
pub mod grammar;
pub mod head;
pub mod parser;
pub mod router;
pub mod text;
pub mod types;
