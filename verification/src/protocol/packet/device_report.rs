//! The full state report in the framed packet format.
//!
//! Wire format: the packet id 2 followed by the root node of the structured state.

use crate::error::{decoded_as, shifted, Decoded, Outcome, ParseError};
use crate::protocol::packet::RodeCasterPacket;
use crate::protocol::types::c_string::parsed_as;
use crate::protocol::types::structured::{decode_structured, spec_structured, SpecStructured, Structured};
use crate::wire::drop;
use vstd::prelude::*;

verus! {

/// The packet id of a state report.
pub const PACKET_ID: u8 = 2u8;

/// A state report: the whole structured state of the device.
#[derive(Debug)]
pub struct DeviceReportPacket {
    pub report: Structured,
}

impl View for DeviceReportPacket {
    type V = SpecStructured;

    open spec fn view(&self) -> SpecStructured {
        self.report@
    }
}

/// A state report at the start of `s`.
pub open spec fn spec_report_packet(s: Seq<u8>) -> Outcome<SpecStructured> {
    if s.len() < 1 {
        Outcome::Error(ParseError::Incomplete)
    } else if s[0] != PACKET_ID {
        Outcome::Error(ParseError::Tag)
    } else {
        shifted(1, spec_structured(drop(s, 1)))
    }
}

/// Decodes a state report, or reports that `data` is one of the inputs on which decoding
/// is undefined.
pub fn decode_report_packet<'a>(data: &'a [u8]) -> (res: Decoded<'a, DeviceReportPacket>)
    ensures
        decoded_as(data@, res, spec_report_packet(data@)),
{
    if data.len() < 1 {
        return Decoded::Error(ParseError::Incomplete);
    }
    if data[0] != PACKET_ID {
        return Decoded::Error(ParseError::Tag);
    }
    let body = vstd::slice::slice_subrange(data, 1, data.len());
    proof {
        assert(drop(data@, 1) =~= body@);
    }
    match decode_structured(body) {
        Decoded::Done(rest, report) => {
            proof {
                assert(rest@ =~= data@.subrange((data@.len() - rest@.len()) as int, data@.len() as int));
            }
            Decoded::Done(rest, DeviceReportPacket { report })
        },
        Decoded::Error(e) => Decoded::Error(e),
        Decoded::Aborts => Decoded::Aborts,
    }
}

impl RodeCasterPacket for DeviceReportPacket {
    open spec fn from_bytes_defined(bytes: Seq<u8>) -> bool {
        !spec_report_packet(bytes).panics()
    }

    fn from_bytes(bytes: &[u8]) -> (res: Result<(&[u8], DeviceReportPacket), ParseError>)
        ensures
            parsed_as(bytes@, res, spec_report_packet(bytes@)),
    {
        match decode_report_packet(bytes) {
            Decoded::Done(rest, p) => Ok((rest, p)),
            Decoded::Error(e) => Err(e),
            Decoded::Aborts => Err(ParseError::Fail),
        }
    }
}

} // verus!
