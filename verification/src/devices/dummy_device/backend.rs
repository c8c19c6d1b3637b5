//! Opening the dummy device.

use crate::device::manager::DeviceIdentifier;
use crate::devices::backend::DeviceBackend;
use crate::devices::dummy_device::handle::DummyDeviceHandle;
use crate::error::UsbError;
use vstd::prelude::*;

verus! {

/// The backend of the dummy device.
pub struct DummyDeviceBackend;

impl DeviceBackend for DummyDeviceBackend {
    type Handle = DummyDeviceHandle;

    /// Opening a dummy device always succeeds.
    fn open(identifier: DeviceIdentifier) -> (r: Result<DummyDeviceHandle, UsbError>)
        ensures
            r is Ok,
    {
        DummyDeviceHandle::open(identifier)
    }
}

} // verus!
