//! The error taxonomy of the codec.
//!
//! Every error is terminal for the encode or decode attempt that produced it:
//! the codec never retries, logs, or substitutes defaults.

use vstd::prelude::*;

verus! {

/// Errors that can occur during protocol serialization or deserialization.
#[derive(Debug, Clone, Copy, PartialEq, Eq, Structural)]
pub enum Error {
    /// The provided buffer is too small to hold the serialized frame, or a
    /// source buffer is too small to contain a header.
    InvalidBufferSize,
    /// Fewer bytes are available than the declared or required size.
    InputTooShort,
    /// An unknown `version` byte was encountered.
    UnknownVersion(u8),
    /// An unknown message-type tag byte was encountered.
    UnknownMessageType(u8),
    /// A declared payload length violates the maximum-packet-size invariant.
    InvalidPayloadLength,
    /// The CRC-16 integrity check failed.
    InvalidCRC16,
    /// The payload bytes do not form a valid value of the target schema.
    InvalidData,
}

} // verus!
