//! A compact binary framing protocol for small, typed messages exchanged over
//! a byte-oriented transport.
//!
//! Every frame is a fixed six-byte header followed by a payload of at most
//! [`message::MESSAGE_SIZE_MAX`] bytes, so that a whole frame always fits in
//! [`PACKET_SIZE_MAX`] bytes. The header carries a protocol version, the
//! payload length, a message-type tag and a CRC-16 checksum over the header's
//! non-checksum bytes and the payload.

use vstd::prelude::*;

pub mod crc;
pub mod error;
pub mod header;
pub mod laws;
pub mod message;
pub mod transport;
pub mod varint;
pub mod version;
pub mod wire;

verus! {

/// The largest number of bytes a whole frame (header plus payload) may occupy.
pub const PACKET_SIZE_MAX: usize = 32;

} // verus!
