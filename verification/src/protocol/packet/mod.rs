//! Packets in the framed format that the device reader hands over: a packet id byte followed
//! by the packet body.

pub mod device_report;
pub mod property_update_packet;

pub use device_report::DeviceReportPacket;
pub use property_update_packet::PropertyUpdatePacket;

use crate::error::ParseError;
use vstd::prelude::*;

verus! {

/// A packet that can be decoded from the bytes of a framed message.
///
/// Each implementation states in its own contract what `from_bytes` returns.
pub trait RodeCasterPacket: Sized {
    /// The inputs on which decoding is defined (decoding is undefined on the others).
    spec fn from_bytes_defined(bytes: Seq<u8>) -> bool;

    /// Decodes the packet at the start of `bytes` and returns the remaining input with it.
    fn from_bytes(bytes: &[u8]) -> Result<(&[u8], Self), ParseError>
        requires
            Self::from_bytes_defined(bytes@),
    ;
}

} // verus!
