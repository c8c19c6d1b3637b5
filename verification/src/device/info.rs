//! What the HID layer reports of a connected device.

use vstd::prelude::*;

verus! {

/// The facts about a connected HID device that the library reads.
#[derive(Debug, Clone)]
pub struct DeviceDescriptor {
    pub vendor_id: u16,
    pub product_id: u16,
    /// The serial number; empty where the device reports none.
    pub serial_number: String,
    pub release_number: u16,
}

/// The model of a [`DeviceDescriptor`].
pub struct SpecDescriptor {
    pub vendor_id: u16,
    pub product_id: u16,
    pub serial_number: Seq<char>,
    pub release_number: u16,
}

impl View for DeviceDescriptor {
    type V = SpecDescriptor;

    open spec fn view(&self) -> SpecDescriptor {
        SpecDescriptor {
            vendor_id: self.vendor_id,
            product_id: self.product_id,
            serial_number: self.serial_number@,
            release_number: self.release_number,
        }
    }
}

impl DeviceDescriptor {
    /// A copy of the descriptor.
    pub fn duplicate(&self) -> (r: DeviceDescriptor)
        ensures
            r == *self,
    {
        DeviceDescriptor {
            vendor_id: self.vendor_id,
            product_id: self.product_id,
            serial_number: self.serial_number.clone(),
            release_number: self.release_number,
        }
    }
}

/// The models of a list of descriptors.
pub open spec fn descriptors_view(ds: Seq<DeviceDescriptor>) -> Seq<SpecDescriptor> {
    ds.map_values(|d: DeviceDescriptor| d@)
}

} // verus!
