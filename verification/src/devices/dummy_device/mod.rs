//! A device that does nothing, for tests.

pub mod backend;
pub mod handle;

use crate::devices::{DeviceRegistryEntry, DeviceType};
use vstd::prelude::*;

verus! {

/// The ids that a dummy device answers to: vendor 0xFFFF, product 0xFFFF.
pub open spec fn spec_registry_entry() -> (u16, Seq<u16>, DeviceType) {
    (0xFFFFu16, seq![0xFFFFu16], DeviceType::DummyDevice)
}

/// The registry entry of the dummy device.
pub fn registry_entry() -> (r: DeviceRegistryEntry)
    ensures
        r@ == spec_registry_entry(),
{
    let mut product_ids: Vec<u16> = Vec::new();
    product_ids.push(0xFFFFu16);
    proof {
        assert(product_ids@ =~= seq![0xFFFFu16]);
    }
    DeviceRegistryEntry { vendor_id: 0xFFFFu16, product_ids, device_type: DeviceType::DummyDevice }
}

} // verus!
