//! A length-prefixed request/response protocol over a byte stream.
//!
//! Each frame is a four-byte big-endian length followed by that many payload
//! bytes; a payload is a Protocol Buffers message holding one request or one
//! response. The crate holds the frame codec, the message schema, the request
//! dispatcher and the per-connection session, all as functions on plain values:
//! the caller owns the socket and performs the reads and writes that the
//! session asks for.

pub mod error;
pub mod wire;
pub mod field;
pub mod message;
pub mod codec;
pub mod roundtrip;
pub mod frame;
pub mod session;
pub mod server_handler;
pub mod server;
pub mod size;
