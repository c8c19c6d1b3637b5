//! The decisions of the receive and send loops of an open device.
//!
//! The receive loop reads packets and reports what they hold; the send loop takes requests
//! and writes the packets they ask for.

use crate::error::{Decoded, Outcome, UsbError};
use crate::protocol::packets::device_status_packet::DeviceStatusPacket;
use crate::protocol::packets::handshake_packet::{spec_handshake_payload, HandshakePacket};
use crate::protocol::packets::property_patch_packet::{spec_patch_packet_bytes, PropertyPatchPacket};
use crate::protocol::packets::{decode_packet, spec_packet, Packet, SpecPacket};
use vstd::prelude::*;

verus! {

/// The HID report id of reports to the device.
pub const HID_REPORT_ID_SEND: u8 = 0x03;

/// The HID report id of reports from the device.
pub const HID_REPORT_ID_RECEIVE: u8 = 0x04;

/// What the receive loop reports.
#[derive(Debug)]
pub enum IoRxEvent {
    DeviceReportReceived(DeviceStatusPacket),
    PropertyPatchReceived(PropertyPatchPacket),
    UnknownPacket(Vec<u8>),
    Error(UsbError),
    Disconnect,
}

/// What the send loop is asked to do.
#[derive(Debug)]
pub enum IoTxEvent {
    SendHandshake,
    SendPropertyPatch(PropertyPatchPacket),
    Close,
}

/// What reading a packet leads to in the receive loop.
#[derive(Debug)]
pub enum RxOutcome {
    /// Nothing was read: wait a moment and go on.
    Idle,
    /// Report this event.
    Event(IoRxEvent),
    /// The packet is one on which decoding is undefined.
    Aborts,
}

/// The event that a packet read from the device gives: the packet it decodes to (a handshake,
/// which only the host sends, is an error), or the decoding error.
pub open spec fn rx_event_matches(raw: Seq<u8>, r: RxOutcome) -> bool {
    match spec_packet(raw) {
        Outcome::Done(_, SpecPacket::DeviceStatus(c)) => r matches RxOutcome::Event(
            IoRxEvent::DeviceReportReceived(p),
        ) && p@ == c,
        Outcome::Done(_, SpecPacket::PropertyPatch(pp)) => r matches RxOutcome::Event(
            IoRxEvent::PropertyPatchReceived(p),
        ) && p@ == pp,
        Outcome::Done(_, SpecPacket::Handshake) => r matches RxOutcome::Event(
            IoRxEvent::Error(UsbError::UnexpectedPacket),
        ),
        Outcome::Done(_, SpecPacket::Unknown(b)) => r matches RxOutcome::Event(IoRxEvent::UnknownPacket(v))
            && v@ == b,
        Outcome::Error(e) => r matches RxOutcome::Event(IoRxEvent::Error(UsbError::FrameParse(e2))) && e2
            == e,
        Outcome::Panics => r is Aborts,
    }
}

/// What the receive loop does with the bytes of a read: nothing for no bytes, else the event
/// of the packet they hold.
pub fn rx_outcome(raw: &[u8]) -> (r: RxOutcome)
    ensures
        raw@.len() == 0 ==> r is Idle,
        raw@.len() > 0 ==> rx_event_matches(raw@, r),
{
    if raw.len() == 0 {
        return RxOutcome::Idle;
    }
    match decode_packet(raw) {
        Decoded::Done(_, Packet::PropertyPatch(p)) => RxOutcome::Event(IoRxEvent::PropertyPatchReceived(p)),
        Decoded::Done(_, Packet::DeviceStatus(p)) => RxOutcome::Event(IoRxEvent::DeviceReportReceived(p)),
        Decoded::Done(_, Packet::Unknown(b)) => RxOutcome::Event(IoRxEvent::UnknownPacket(b)),
        Decoded::Done(_, Packet::Handshake(_)) => RxOutcome::Event(IoRxEvent::Error(UsbError::UnexpectedPacket)),
        Decoded::Error(e) => RxOutcome::Event(IoRxEvent::Error(UsbError::FrameParse(e))),
        Decoded::Aborts => RxOutcome::Aborts,
    }
}

/// What the send loop writes for a request: `Ok(None)` ends the loop, `Ok(Some(bytes))` is a
/// packet to send, an error ends the loop with it.
pub fn tx_packet(event: IoTxEvent) -> (r: Result<Option<Vec<u8>>, UsbError>)
    ensures
        match event {
            IoTxEvent::Close => r matches Ok(None),
            IoTxEvent::SendHandshake => r matches Ok(Some(b)) && b@ == spec_handshake_payload(),
            IoTxEvent::SendPropertyPatch(p) => match spec_patch_packet_bytes(p@) {
                Ok(b) => r matches Ok(Some(v)) && v@ == b,
                Err((e, _)) => r matches Err(UsbError::ProtocolWrite(e2)) && e2 == e,
            },
        },
{
    match event {
        IoTxEvent::Close => Ok(None),
        IoTxEvent::SendHandshake => {
            let mut packet: Vec<u8> = Vec::new();
            HandshakePacket {}.write_to(&mut packet);
            proof {
                assert(packet@ =~= spec_handshake_payload());
            }
            Ok(Some(packet))
        },
        IoTxEvent::SendPropertyPatch(patch) => {
            let mut packet: Vec<u8> = Vec::new();
            match patch.write_to(&mut packet) {
                Ok(()) => {
                    proof {
                        assert(packet@ =~= spec_patch_packet_bytes(patch@)->Ok_0);
                    }
                    Ok(Some(packet))
                },
                Err(e) => Err(UsbError::ProtocolWrite(e)),
            }
        },
    }
}

} // verus!
