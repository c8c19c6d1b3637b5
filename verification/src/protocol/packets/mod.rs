//! The packets that a device and the host exchange.

pub mod handshake_packet;
pub mod property_patch_packet;
pub mod device_status_packet;

use crate::error::{decoded_as, Decoded, Outcome, ParseError};
use crate::protocol::Parseable;
use crate::protocol::types::c_string::parsed_as;
use crate::protocol::types::composite::SpecComposite;
use device_status_packet::{decode_device_status, spec_device_status, DeviceStatusPacket};
use handshake_packet::{spec_handshake_payload, HandshakePacket};
use property_patch_packet::{decode_patch_packet, spec_patch_packet, PropertyPatchPacket, SpecPatchPacket};
use vstd::prelude::*;

verus! {

/// A packet received from a device.
#[derive(Debug)]
pub enum Packet {
    DeviceStatus(DeviceStatusPacket),
    PropertyPatch(PropertyPatchPacket),
    Handshake(HandshakePacket),
    Unknown(Vec<u8>),
}

/// The model of a [`Packet`].
pub enum SpecPacket {
    DeviceStatus(SpecComposite),
    PropertyPatch(SpecPatchPacket),
    Handshake,
    Unknown(Seq<u8>),
}

impl View for Packet {
    type V = SpecPacket;

    open spec fn view(&self) -> SpecPacket {
        match self {
            Packet::DeviceStatus(p) => SpecPacket::DeviceStatus(p@),
            Packet::PropertyPatch(p) => SpecPacket::PropertyPatch(p@),
            Packet::Handshake(_) => SpecPacket::Handshake,
            Packet::Unknown(b) => SpecPacket::Unknown(b@),
        }
    }
}

/// The packet in `s`: the first kind whose quick test accepts the bytes is decoded (a state
/// report, then a property patch, then the handshake); bytes that none accepts are an unknown
/// packet, which takes all of them.
pub open spec fn spec_packet(s: Seq<u8>) -> Outcome<SpecPacket> {
    if s.len() >= 4 && s[0] == device_status_packet::PACKET_ID {
        match spec_device_status(s) {
            Outcome::Done(k, c) => Outcome::Done(k, SpecPacket::DeviceStatus(c)),
            Outcome::Error(e) => Outcome::Error(e),
            Outcome::Panics => Outcome::Panics,
        }
    } else if s.len() >= 3 && s[0] == property_patch_packet::PACKET_ID {
        match spec_patch_packet(s) {
            Outcome::Done(k, p) => Outcome::Done(k, SpecPacket::PropertyPatch(p)),
            Outcome::Error(e) => Outcome::Error(e),
            Outcome::Panics => Outcome::Panics,
        }
    } else if s == spec_handshake_payload() {
        Outcome::Done(4, SpecPacket::Handshake)
    } else {
        Outcome::Done(s.len(), SpecPacket::Unknown(s))
    }
}

/// Decodes a packet, or reports that `bytes` are one of the inputs on which decoding is
/// undefined.
pub fn decode_packet<'a>(bytes: &'a [u8]) -> (res: Decoded<'a, Packet>)
    ensures
        decoded_as(bytes@, res, spec_packet(bytes@)),
{
    if DeviceStatusPacket::can_parse(bytes) {
        match decode_device_status(bytes) {
            Decoded::Done(rest, p) => Decoded::Done(rest, Packet::DeviceStatus(p)),
            Decoded::Error(e) => Decoded::Error(e),
            Decoded::Aborts => Decoded::Aborts,
        }
    } else if PropertyPatchPacket::can_parse(bytes) {
        match decode_patch_packet(bytes) {
            Decoded::Done(rest, p) => Decoded::Done(rest, Packet::PropertyPatch(p)),
            Decoded::Error(e) => Decoded::Error(e),
            Decoded::Aborts => Decoded::Aborts,
        }
    } else if HandshakePacket::can_parse(bytes) {
        let rest = vstd::slice::slice_subrange(bytes, 4, bytes.len());
        Decoded::Done(rest, Packet::Handshake(HandshakePacket {}))
    } else {
        let rest = vstd::slice::slice_subrange(bytes, bytes.len(), bytes.len());
        proof {
            assert(rest@ =~= bytes@.subrange(bytes@.len() as int, bytes@.len() as int));
        }
        Decoded::Done(rest, Packet::Unknown(vstd::slice::slice_to_vec(bytes)))
    }
}

/// Decodes a packet from the bytes received from a device.
pub fn parse_packet(bytes: &[u8]) -> (res: Result<(&[u8], Packet), ParseError>)
    requires
        !spec_packet(bytes@).panics(),
    ensures
        parsed_as(bytes@, res, spec_packet(bytes@)),
{
    match decode_packet(bytes) {
        Decoded::Done(rest, p) => Ok((rest, p)),
        Decoded::Error(e) => Err(e),
        Decoded::Aborts => Err(ParseError::Fail),
    }
}

} // verus!
