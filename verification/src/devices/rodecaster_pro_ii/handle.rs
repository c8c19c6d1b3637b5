//! Messages to and from an open RØDECaster Pro II.

use crate::error::UsbError;
use crate::protocol::packets::device_status_packet::DeviceStatusPacket;
use crate::protocol::packets::property_patch_packet::PropertyPatchPacket;
use vstd::prelude::*;

verus! {

/// A command to the I/O loop of a device.
#[derive(Debug, Clone)]
pub enum RodeCasterProIICommand {
    /// Send the bytes as one packet.
    SendPacket(Vec<u8>),
    /// End the I/O loop.
    Stop,
}

/// What the I/O loop of a device reports.
#[derive(Debug)]
pub enum RodeCasterProIIEvent {
    /// The device was initialised.
    Connected,
    DeviceReportReceived(DeviceStatusPacket),
    PropertyPatchReceived(PropertyPatchPacket),
    UnknownPacket(Vec<u8>),
    Error(UsbError),
    Disconnect,
}

} // verus!
