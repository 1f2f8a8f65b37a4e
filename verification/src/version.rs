//! The protocol version byte.
//!
//! The version tag space is open: unknown bytes are rejected explicitly with
//! [`Error::UnknownVersion`] rather than guessed at, so later versions can be
//! added without breaking the decoding of this one.

use crate::error::Error;
use vstd::prelude::*;

verus! {

/// The identifying byte for the protocol.
#[derive(Debug, Clone, Copy, PartialEq, Eq, Structural)]
pub enum ProtocolVersion {
    V1,
}

impl ProtocolVersion {
    /// The wire byte of this version.
    pub open spec fn spec_byte(self) -> u8 {
        match self {
            ProtocolVersion::V1 => 0x01,
        }
    }

    /// Which versions a byte denotes; bytes outside the recognized set are
    /// rejected with the offending byte.
    pub open spec fn spec_of_byte(b: u8) -> Result<ProtocolVersion, Error> {
        if b == 0x01 {
            Ok(ProtocolVersion::V1)
        } else {
            Err(Error::UnknownVersion(b))
        }
    }

    pub fn to_byte(self) -> (b: u8)
        ensures
            b == self.spec_byte(),
    {
        match self {
            ProtocolVersion::V1 => 0x01,
        }
    }

    pub fn try_from_byte(b: u8) -> (r: Result<ProtocolVersion, Error>)
        ensures
            r == ProtocolVersion::spec_of_byte(b),
    {
        if b == 0x01 {
            Ok(ProtocolVersion::V1)
        } else {
            Err(Error::UnknownVersion(b))
        }
    }
}

} // verus!
