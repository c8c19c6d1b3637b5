//! The full state report of a device.
//!
//! Wire format: the packet id 2 followed by the root state object.

use crate::error::{decoded_as, shifted, Decoded, Outcome, ParseError};
use crate::protocol::Parseable;
use crate::protocol::types::c_string::parsed_as;
use crate::protocol::types::composite::{decode_composite, spec_composite, Composite, SpecComposite};
use crate::wire::drop;
use vstd::prelude::*;

verus! {

/// The packet id of a state report.
pub const PACKET_ID: u8 = 2u8;

/// A state report: the whole state tree of the device.
#[derive(Debug)]
pub struct DeviceStatusPacket {
    status: Composite,
}

impl View for DeviceStatusPacket {
    type V = SpecComposite;

    closed spec fn view(&self) -> SpecComposite {
        self.status@
    }
}

/// A state report at the start of `s`.
pub open spec fn spec_device_status(s: Seq<u8>) -> Outcome<SpecComposite> {
    if s.len() < 1 {
        Outcome::Error(ParseError::Incomplete)
    } else if s[0] != PACKET_ID {
        Outcome::Error(ParseError::Tag)
    } else {
        shifted(1, spec_composite(drop(s, 1)))
    }
}

impl DeviceStatusPacket {
    /// The state tree that the report carries.
    pub fn get_status(&self) -> (r: &Composite)
        ensures
            r@ == self@,
    {
        &self.status
    }

    /// The state tree that the report carries, taken out of it.
    pub fn into_status(self) -> (r: Composite)
        ensures
            r@ == self@,
    {
        self.status
    }
}

/// Decodes a state report, or reports that `data` is one of the inputs on which decoding
/// is undefined.
pub fn decode_device_status<'a>(data: &'a [u8]) -> (res: Decoded<'a, DeviceStatusPacket>)
    ensures
        decoded_as(data@, res, spec_device_status(data@)),
{
    if data.len() < 1 {
        return Decoded::Error(ParseError::Incomplete);
    }
    if data[0] != PACKET_ID {
        return Decoded::Error(ParseError::Tag);
    }
    let body = vstd::slice::slice_subrange(data, 1, data.len());
    proof {
        assert(drop(data@, 1) =~= body@);
    }
    match decode_composite(body) {
        Decoded::Done(rest, status) => {
            proof {
                assert(rest@ =~= data@.subrange((data@.len() - rest@.len()) as int, data@.len() as int));
            }
            Decoded::Done(rest, DeviceStatusPacket { status })
        },
        Decoded::Error(e) => Decoded::Error(e),
        Decoded::Aborts => Decoded::Aborts,
    }
}

impl Parseable for DeviceStatusPacket {
    open spec fn parse_defined(data: Seq<u8>) -> bool {
        !spec_device_status(data).panics()
    }

    /// The packet id followed by at least the three bytes of a state object.
    fn can_parse(data: &[u8]) -> (r: bool)
        ensures
            r == (data@.len() >= 4 && data@[0] == PACKET_ID),
    {
        data.len() >= 1 && data[0] == PACKET_ID && data.len() - 1 >= 3
    }

    fn parse(data: &[u8]) -> (res: Result<(&[u8], DeviceStatusPacket), ParseError>)
        ensures
            parsed_as(data@, res, spec_device_status(data@)),
    {
        match decode_device_status(data) {
            Decoded::Done(rest, p) => Ok((rest, p)),
            Decoded::Error(e) => Err(e),
            Decoded::Aborts => Err(ParseError::Fail),
        }
    }
}

} // verus!
