//! Packets of the framed message format.
//!
//! On the wire a message is `<report id> <u32 packet length> <packet data>`, split over as many
//! HID reports as it needs (see [`crate::transport`]). The report id is device specific and is
//! never handed to the decoder below: it sees the reassembled packet data only.

use crate::error::{Outcome, ParseError, UsbError};
use crate::protocol::packet::device_report::{decode_report_packet, spec_report_packet};
use crate::protocol::packet::property_update_packet::{decode_update_packet, spec_update_packet};
use crate::protocol::packet::{DeviceReportPacket, PropertyUpdatePacket};
use crate::protocol::packets::property_patch_packet::SpecPatchPacket;
use crate::protocol::types::structured::SpecStructured;
use crate::error::Decoded;
use vstd::prelude::*;

verus! {

/// A packet of the framed format, by its id byte.
#[derive(Debug)]
pub enum PacketType {
    /// A packet with an id that is not known (or no bytes at all), kept as it came.
    Unknown(Vec<u8>),
    PropertyUpdate(PropertyUpdatePacket),
    DeviceReport(DeviceReportPacket),
}

/// The model of a [`PacketType`].
pub enum SpecPacketType {
    Unknown(Seq<u8>),
    PropertyUpdate(SpecPatchPacket),
    DeviceReport(SpecStructured),
}

impl View for PacketType {
    type V = SpecPacketType;

    open spec fn view(&self) -> SpecPacketType {
        match self {
            PacketType::Unknown(b) => SpecPacketType::Unknown(b@),
            PacketType::PropertyUpdate(p) => SpecPacketType::PropertyUpdate(p@),
            PacketType::DeviceReport(p) => SpecPacketType::DeviceReport(p@),
        }
    }
}

/// The packet that the bytes of a framed message hold, chosen by the first byte: 1 a property
/// update, 2 a state report, anything else (or nothing) an unknown packet. Bytes after a
/// decoded packet are ignored.
pub open spec fn spec_raw_packet(s: Seq<u8>) -> Outcome<SpecPacketType> {
    if s.len() > 0 && s[0] == 1u8 {
        match spec_update_packet(s) {
            Outcome::Done(k, p) => Outcome::Done(k, SpecPacketType::PropertyUpdate(p)),
            Outcome::Error(e) => Outcome::Error(e),
            Outcome::Panics => Outcome::Panics,
        }
    } else if s.len() > 0 && s[0] == 2u8 {
        match spec_report_packet(s) {
            Outcome::Done(k, p) => Outcome::Done(k, SpecPacketType::DeviceReport(p)),
            Outcome::Error(e) => Outcome::Error(e),
            Outcome::Panics => Outcome::Panics,
        }
    } else {
        Outcome::Done(s.len(), SpecPacketType::Unknown(s))
    }
}

/// Decodes the packet of a framed message. A decoding failure is a
/// [`UsbError::FrameParse`] with the decoder's error.
pub fn parse_raw_packet(bytes: Vec<u8>) -> (res: Result<PacketType, UsbError>)
    requires
        !spec_raw_packet(bytes@).panics(),
    ensures
        match spec_raw_packet(bytes@) {
            Outcome::Done(_, p) => res is Ok && res->Ok_0@ == p,
            Outcome::Error(e) => res matches Err(UsbError::FrameParse(e2)) && e2 == e,
            Outcome::Panics => false,
        },
{
    if bytes.len() > 0 && bytes[0] == 1u8 {
        match decode_update_packet(bytes.as_slice()) {
            Decoded::Done(_, p) => Ok(PacketType::PropertyUpdate(p)),
            Decoded::Error(e) => Err(UsbError::FrameParse(e)),
            Decoded::Aborts => Err(UsbError::FrameParse(ParseError::Fail)),
        }
    } else if bytes.len() > 0 && bytes[0] == 2u8 {
        match decode_report_packet(bytes.as_slice()) {
            Decoded::Done(_, p) => Ok(PacketType::DeviceReport(p)),
            Decoded::Error(e) => Err(UsbError::FrameParse(e)),
            Decoded::Aborts => Err(UsbError::FrameParse(ParseError::Fail)),
        }
    } else {
        Ok(PacketType::Unknown(bytes))
    }
}

} // verus!
