//! A minimal node runtime for a line-delimited, JSON-encoded request/reply
//! protocol: an envelope codec, an initialization handshake, and a dispatch
//! step that assigns strictly increasing sequence numbers to every record the
//! node emits.

pub mod arr;
pub mod behavior;
pub mod codec;
pub mod engine;
pub mod jstr;
pub mod msg;
pub mod num;
pub mod topo;
pub mod wire;
