//! A WebSocket frame codec: encoding of frames for either side of a
//! connection, parsing of frame headers, and reassembly of fragmented
//! messages with unmasking.
use vstd::prelude::*;

pub mod decode;
pub mod frame;
pub mod handshake;
pub mod laws;
pub mod ws;

verus! {

/// The side of a connection that accepted it: it never masks what it sends.
pub const SERVER: bool = true;

/// The side of a connection that opened it: it masks everything it sends.
pub const CLIENT: bool = false;

} // verus!
