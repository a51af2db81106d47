//! Connection-level engine for an HTTP/1.x server: given a non-blocking byte
//! channel, it frames messages, drives one request/response transaction at a
//! time through a caller-supplied handler, and decides whether the connection
//! is kept alive for the next message or torn down.

pub mod channel;
pub mod codec;
pub mod conn;
pub mod framing;
pub mod handle;
pub mod head;
pub mod request;
pub mod txn;
