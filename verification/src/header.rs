//! The fixed six-byte frame header.
//!
//! Wire layout, offsets in bytes:
//!
//! | offset | size | field          |
//! |--------|------|----------------|
//! | 0      | 1    | version        |
//! | 1      | 2    | length (LE)    |
//! | 3      | 1    | message type   |
//! | 4      | 2    | CRC-16 (LE)    |
//!
//! `length` counts the payload bytes that follow the header, never the
//! header itself. The checksum covers the header's non-checksum bytes and
//! the payload; the header codec reads and writes it verbatim, validation
//! belongs to the packet layer.

use crate::error::Error;
use crate::message::MessageType;
use crate::version::ProtocolVersion;
use crate::wire::{le16_bytes, le16_value, read_le16};
use vstd::prelude::*;

verus! {

/// The number of bytes a header occupies on the wire.
pub const HEADER_SIZE: usize = 6;

/// The fixed preamble of every frame.
#[derive(Debug, PartialEq, Eq, Clone, Copy, Structural)]
pub struct Header {
    pub version: ProtocolVersion,
    pub length: u16,
    pub message_type: MessageType,
    pub crc16: u16,
}

/// The six wire bytes of a header, in field order.
pub open spec fn spec_header_bytes(h: Header) -> Seq<u8> {
    seq![h.version.spec_byte()] + le16_bytes(h.length) + seq![h.message_type.spec_byte()]
        + le16_bytes(h.crc16)
}

/// The header the first six bytes of `s` decode to.
///
/// The version byte is inspected first, so an unrecognized version is
/// reported before any later field is interpreted; the tag byte comes
/// second; length and checksum are read verbatim.
pub open spec fn spec_header_decode(s: Seq<u8>) -> Result<Header, Error> {
    if s.len() < HEADER_SIZE {
        Err(Error::InvalidBufferSize)
    } else {
        match ProtocolVersion::spec_of_byte(s[0]) {
            Err(e) => Err(e),
            Ok(version) => match MessageType::spec_of_byte(s[3]) {
                Err(e) => Err(e),
                Ok(message_type) => Ok(
                    Header {
                        version,
                        length: le16_value(s.subrange(1, 3)),
                        message_type,
                        crc16: le16_value(s.subrange(4, 6)),
                    },
                ),
            },
        }
    }
}

impl Header {
    /// Writes the six header bytes over the start of `buf`, leaving the rest
    /// of the buffer untouched. Fails without writing anything if `buf`
    /// cannot hold a header.
    pub fn encode(&self, buf: &mut Vec<u8>) -> (r: Result<usize, Error>)
        ensures
            match r {
                Ok(n) => {
                    &&& n == HEADER_SIZE
                    &&& old(buf)@.len() >= HEADER_SIZE
                    &&& final(buf)@.len() == old(buf)@.len()
                    &&& final(buf)@.subrange(0, HEADER_SIZE as int) == spec_header_bytes(*self)
                    &&& final(buf)@.skip(HEADER_SIZE as int) == old(buf)@.skip(HEADER_SIZE as int)
                },
                Err(e) => {
                    &&& e == Error::InvalidBufferSize
                    &&& old(buf)@.len() < HEADER_SIZE
                    &&& final(buf)@ == old(buf)@
                },
            },
    {
        if buf.len() < HEADER_SIZE {
            return Err(Error::InvalidBufferSize);
        }
        buf.set(0, self.version.to_byte());
        buf.set(1, (self.length & 0xff) as u8);
        buf.set(2, ((self.length >> 8) & 0xff) as u8);
        buf.set(3, self.message_type.to_byte());
        buf.set(4, (self.crc16 & 0xff) as u8);
        buf.set(5, ((self.crc16 >> 8) & 0xff) as u8);
        proof {
            assert(buf@.subrange(0, HEADER_SIZE as int) =~= spec_header_bytes(*self));
            assert(buf@.skip(HEADER_SIZE as int) =~= old(buf)@.skip(HEADER_SIZE as int));
        }
        Ok(HEADER_SIZE)
    }

    /// Reads a header from the first six bytes of `buf`.
    pub fn decode(buf: &Vec<u8>) -> (r: Result<Header, Error>)
        ensures
            r == spec_header_decode(buf@),
    {
        if buf.len() < HEADER_SIZE {
            return Err(Error::InvalidBufferSize);
        }
        let version = match ProtocolVersion::try_from_byte(buf[0]) {
            Ok(v) => v,
            Err(e) => {
                return Err(e);
            },
        };
        let message_type = match MessageType::try_from_byte(buf[3]) {
            Ok(t) => t,
            Err(e) => {
                return Err(e);
            },
        };
        let length = read_le16(buf, 1);
        let crc16 = read_le16(buf, 4);
        Ok(Header { version, length, message_type, crc16 })
    }
}

} // verus!
