//! Library side of a configuration utility for the RØDECaster Pro II: the framed USB HID
//! protocol, the binary encoding of device state and property patches, the device state tree,
//! device recognition and hot-plug bookkeeping, and the decisions of the device loops and of
//! the commands of the tool.

pub mod error;
pub mod wire;
pub mod protocol;
pub mod parser;
pub mod transport;
pub mod hotplug;
pub mod device;
pub mod devices;
pub mod device_manager;
pub mod manager;
pub mod commands;
pub mod ui;
pub mod rodecaster_pro_ii;

use vstd::prelude::*;

verus! {

/// USB vendor id of RØDE devices. Device specific ids are defined in the device modules.
pub const VID_RODE: u16 = 0x19f7;

} // verus!
