//! Options for the byte transport that carries frames.
//!
//! The codec itself is transport-agnostic; these plain values tell the
//! surrounding transport layer which serial interface classes to expose.

use vstd::prelude::*;

verus! {

/// Which USB serial interface classes the transport should offer for
/// exchanging frames.
#[derive(Debug, Clone, Copy, PartialEq, Eq, Structural)]
pub struct USBOpts {
    /// Offer a character-device serial channel.
    pub acm: bool,
    /// Offer a network-device channel.
    pub ncm: bool,
}

impl Default for USBOpts {
    /// By default no interface class is offered; the transport must opt in.
    fn default() -> (r: USBOpts)
        ensures
            r == (USBOpts { acm: false, ncm: false }),
    {
        USBOpts { acm: false, ncm: false }
    }
}

} // verus!
