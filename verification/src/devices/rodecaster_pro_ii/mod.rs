//! The RØDECaster Pro II.

pub mod backend;
pub mod handle;
pub mod io;
pub mod state;

use crate::devices::{DeviceRegistryEntry, DeviceType, VID_RODE};
use vstd::prelude::*;

verus! {

/// The product ids of the RØDECaster Pro II.
pub open spec fn spec_pid_rodecaster_pro_ii() -> Seq<u16> {
    seq![0x0037u16, 0x0072u16, 0x0078u16, 0x0030u16, 0x0094u16, 0x0092u16]
}

/// The product ids of the RØDECaster Pro II.
pub fn pid_rodecaster_pro_ii() -> (r: Vec<u16>)
    ensures
        r@ == spec_pid_rodecaster_pro_ii(),
{
    let r: Vec<u16> = vec![0x0037u16, 0x0072u16, 0x0078u16, 0x0030u16, 0x0094u16, 0x0092u16];
    proof {
        assert(r@ =~= spec_pid_rodecaster_pro_ii());
    }
    r
}

/// The ids that a RØDECaster Pro II answers to.
pub open spec fn spec_registry_entry() -> (u16, Seq<u16>, DeviceType) {
    (VID_RODE, spec_pid_rodecaster_pro_ii(), DeviceType::RodeCasterProII)
}

/// The registry entry of the RØDECaster Pro II.
pub fn registry_entry() -> (r: DeviceRegistryEntry)
    ensures
        r@ == spec_registry_entry(),
{
    DeviceRegistryEntry { vendor_id: VID_RODE, product_ids: pid_rodecaster_pro_ii(), device_type: DeviceType::RodeCasterProII }
}

} // verus!
