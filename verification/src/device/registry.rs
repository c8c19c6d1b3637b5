//! The registry of the device families that the device manager opens.

use crate::devices::DeviceType;
use vstd::prelude::*;

verus! {

/// USB vendor id of RØDE devices.
pub const VID_RODE: u16 = 0x19F7;

/// How a device family is recognised: its vendor id and the product ids it uses.
#[derive(Debug)]
pub struct DeviceRegistryEntry {
    pub vendor_id: u16,
    pub product_ids: Vec<u16>,
    pub device_type: DeviceType,
}

impl View for DeviceRegistryEntry {
    type V = (u16, Seq<u16>, DeviceType);

    open spec fn view(&self) -> (u16, Seq<u16>, DeviceType) {
        (self.vendor_id, self.product_ids@, self.device_type)
    }
}

/// The models of a list of registry entries.
pub open spec fn entries_view(es: Seq<DeviceRegistryEntry>) -> Seq<(u16, Seq<u16>, DeviceType)> {
    es.map_values(|e: DeviceRegistryEntry| e@)
}

/// The families that the device manager opens: the RØDECaster Pro II.
pub open spec fn spec_registry() -> Seq<(u16, Seq<u16>, DeviceType)> {
    seq![crate::devices::rodecaster_pro_ii::spec_registry_entry()]
}

/// The families that the device manager opens.
pub fn known_devices() -> (r: Vec<DeviceRegistryEntry>)
    ensures
        entries_view(r@) == spec_registry(),
{
    let mut r: Vec<DeviceRegistryEntry> = Vec::new();
    r.push(crate::devices::rodecaster_pro_ii::registry_entry());
    proof {
        assert(entries_view(r@) =~= spec_registry());
    }
    r
}

} // verus!
