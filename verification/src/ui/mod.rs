//! Messages between the user interface and its background worker.

use vstd::prelude::*;

verus! {

/// An event of the user interface.
#[derive(Debug, Clone, PartialEq, Eq)]
pub enum AppEvent {
    /// The user selected the device with this serial number.
    SelectDevice(String),
}

/// An event of the background worker.
#[derive(Debug, Clone, Copy, PartialEq, Eq, Structural)]
pub enum WorkerEvent {
    /// The list of connected devices changed.
    DeviceListChanged,
}

} // verus!
