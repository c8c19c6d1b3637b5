//! Opening a device of a family.

use crate::device::manager::DeviceIdentifier;
use crate::error::UsbError;
use vstd::prelude::*;

verus! {

/// How a device family opens one of its devices.
pub trait DeviceBackend {
    /// What an open device is handled through.
    type Handle;

    /// Opens the device.
    fn open(identifier: DeviceIdentifier) -> Result<Self::Handle, UsbError>;
}

} // verus!
