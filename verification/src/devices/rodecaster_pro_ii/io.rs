//! The decisions of the I/O loop of a RØDECaster Pro II.
//!
//! The loop sends [`init_payload`] once, then alternates: it takes a command (sending the
//! packet of a `SendPacket`, ending on `Stop`), reads a packet and reports what it holds.

use crate::devices::rodecaster_pro_ii::handle::RodeCasterProIIEvent;
use crate::error::{Decoded, Outcome, ParseError, UsbError};
use crate::protocol::packets::{decode_packet, spec_packet, Packet, SpecPacket};
use vstd::prelude::*;

verus! {

/// The HID report id of reports to the device.
pub const HID_REPORT_ID_SEND: u8 = 0x03;

/// The HID report id of reports from the device.
pub const HID_REPORT_ID_RECEIVE: u8 = 0x04;

/// The four bytes that the host sends to start communication with the device.
pub open spec fn spec_init_payload() -> Seq<u8> {
    seq![0xADu8, 0x10u8, 0xA7u8, 0xB0u8]
}

/// The four bytes that the host sends to start communication with the device.
pub fn init_payload() -> (r: Vec<u8>)
    ensures
        r@ == spec_init_payload(),
{
    let r: Vec<u8> = vec![0xADu8, 0x10u8, 0xA7u8, 0xB0u8];
    proof {
        assert(r@ =~= spec_init_payload());
    }
    r
}

/// What reading a packet leads to.
#[derive(Debug)]
pub enum ReadOutcome {
    /// Nothing was read: wait a moment and go on.
    Idle,
    /// Report this event.
    Event(RodeCasterProIIEvent),
    /// The packet is one on which decoding is undefined.
    Aborts,
}

/// The event that a packet read from the device gives: the packet it decodes to (a handshake,
/// which only the host sends, is an error), or the decoding error.
pub open spec fn event_matches(raw: Seq<u8>, r: ReadOutcome) -> bool {
    match spec_packet(raw) {
        Outcome::Done(_, SpecPacket::DeviceStatus(c)) => r matches ReadOutcome::Event(
            RodeCasterProIIEvent::DeviceReportReceived(p),
        ) && p@ == c,
        Outcome::Done(_, SpecPacket::PropertyPatch(pp)) => r matches ReadOutcome::Event(
            RodeCasterProIIEvent::PropertyPatchReceived(p),
        ) && p@ == pp,
        Outcome::Done(_, SpecPacket::Handshake) => r matches ReadOutcome::Event(
            RodeCasterProIIEvent::Error(UsbError::UnexpectedPacket),
        ),
        Outcome::Done(_, SpecPacket::Unknown(b)) => r matches ReadOutcome::Event(
            RodeCasterProIIEvent::UnknownPacket(v),
        ) && v@ == b,
        Outcome::Error(e) => r matches ReadOutcome::Event(
            RodeCasterProIIEvent::Error(UsbError::FrameParse(e2)),
        ) && e2 == e,
        Outcome::Panics => r is Aborts,
    }
}

/// What the loop does with the bytes of a read: nothing for no bytes, else the event of the
/// packet they hold.
pub fn read_outcome(raw: &[u8]) -> (r: ReadOutcome)
    ensures
        raw@.len() == 0 ==> r is Idle,
        raw@.len() > 0 ==> event_matches(raw@, r),
{
    if raw.len() == 0 {
        return ReadOutcome::Idle;
    }
    match decode_packet(raw) {
        Decoded::Done(_, Packet::PropertyPatch(p)) => ReadOutcome::Event(
            RodeCasterProIIEvent::PropertyPatchReceived(p),
        ),
        Decoded::Done(_, Packet::DeviceStatus(p)) => ReadOutcome::Event(
            RodeCasterProIIEvent::DeviceReportReceived(p),
        ),
        Decoded::Done(_, Packet::Unknown(b)) => ReadOutcome::Event(RodeCasterProIIEvent::UnknownPacket(b)),
        Decoded::Done(_, Packet::Handshake(_)) => ReadOutcome::Event(
            RodeCasterProIIEvent::Error(UsbError::UnexpectedPacket),
        ),
        Decoded::Error(e) => ReadOutcome::Event(RodeCasterProIIEvent::Error(UsbError::FrameParse(e))),
        Decoded::Aborts => ReadOutcome::Aborts,
    }
}

} // verus!
