//! The device families that the library knows and how a USB device is recognised as one.

pub mod backend;
pub mod dummy_device;
pub mod rodecaster_pro_ii;

pub use crate::device::registry::{entries_view, DeviceRegistryEntry};
use vstd::prelude::*;

verus! {

/// USB vendor id of RØDE devices.
pub const VID_RODE: u16 = 0x19F7;

/// A device family.
#[derive(Debug, Clone, Copy, PartialEq, Eq, Hash, Structural)]
pub enum DeviceType {
    /// A device that does nothing, for tests.
    DummyDevice,
    RodeCasterProII,
}

/// The family of the first entry that matches the vendor and product id, if any.
pub open spec fn spec_detect(
    entries: Seq<(u16, Seq<u16>, DeviceType)>,
    vendor_id: u16,
    product_id: u16,
) -> Option<DeviceType>
    decreases entries.len(),
{
    if entries.len() == 0 {
        None
    } else if entries[0].0 == vendor_id && entries[0].1.contains(product_id) {
        Some(entries[0].2)
    } else {
        spec_detect(entries.drop_first(), vendor_id, product_id)
    }
}

/// The registry of the device families, in the order in which they are tried: the dummy
/// device, then the RØDECaster Pro II.
pub open spec fn spec_known_devices() -> Seq<(u16, Seq<u16>, DeviceType)> {
    seq![dummy_device::spec_registry_entry(), rodecaster_pro_ii::spec_registry_entry()]
}

/// The registry of the device families.
pub fn known_devices() -> (r: Vec<DeviceRegistryEntry>)
    ensures
        entries_view(r@) == spec_known_devices(),
{
    let mut r: Vec<DeviceRegistryEntry> = Vec::new();
    r.push(dummy_device::registry_entry());
    r.push(rodecaster_pro_ii::registry_entry());
    proof {
        assert(entries_view(r@) =~= spec_known_devices());
    }
    r
}

/// Whether `ids` holds `id`.
pub fn contains_id(ids: &Vec<u16>, id: u16) -> (r: bool)
    ensures
        r == ids@.contains(id),
{
    let mut i: usize = 0;
    while i < ids.len()
        invariant
            i <= ids@.len(),
            forall|j: int| 0 <= j < i ==> ids@[j] != id,
        decreases ids@.len() - i,
    {
        if ids[i] == id {
            proof {
                assert(ids@[i as int] == id);
            }
            return true;
        }
        i = i + 1;
    }
    false
}

/// The family of the first entry of `entries` that matches the vendor and product id.
pub fn find_device_type(entries: &Vec<DeviceRegistryEntry>, vendor_id: u16, product_id: u16) -> (r: Option<DeviceType>)
    ensures
        r == spec_detect(entries_view(entries@), vendor_id, product_id),
{
    let ghost es = entries_view(entries@);
    let mut i: usize = 0;
    proof {
        assert(es.skip(0) =~= es);
    }
    while i < entries.len()
        invariant
            i <= entries@.len(),
            es == entries_view(entries@),
            spec_detect(es, vendor_id, product_id) == spec_detect(es.skip(i as int), vendor_id, product_id),
        decreases entries@.len() - i,
    {
        let e = &entries[i];
        proof {
            assert(es.skip(i as int)[0] == e@);
            assert(es.skip(i as int).drop_first() =~= es.skip(i + 1));
        }
        if e.vendor_id == vendor_id && contains_id(&e.product_ids, product_id) {
            return Some(e.device_type);
        }
        i = i + 1;
    }
    None
}

/// The family of a USB device with the given vendor and product id, by the registry.
pub fn detect_device(vendor_id: u16, product_id: u16) -> (r: Option<DeviceType>)
    ensures
        r == spec_detect(spec_known_devices(), vendor_id, product_id),
{
    let entries = known_devices();
    find_device_type(&entries, vendor_id, product_id)
}

/// `product_id` is one of the product ids of the RØDECaster Pro II: 0x0037, 0x0072, 0x0078,
/// 0x0030, 0x0094 or 0x0092.
pub open spec fn is_pro_ii_product(product_id: u16) -> bool {
    product_id == 0x0037u16 || product_id == 0x0072u16 || product_id == 0x0078u16
        || product_id == 0x0030u16 || product_id == 0x0094u16 || product_id == 0x0092u16
}

/// Whether a list of ids holds exactly the product ids of the RØDECaster Pro II.
proof fn lemma_pro_ii_ids(ids: Seq<u16>, product_id: u16)
    requires
        ids == seq![0x0037u16, 0x0072u16, 0x0078u16, 0x0030u16, 0x0094u16, 0x0092u16],
    ensures
        ids.contains(product_id) <==> is_pro_ii_product(product_id),
{
    if is_pro_ii_product(product_id) {
        if product_id == 0x0037u16 { assert(ids[0] == product_id); }
        if product_id == 0x0072u16 { assert(ids[1] == product_id); }
        if product_id == 0x0078u16 { assert(ids[2] == product_id); }
        if product_id == 0x0030u16 { assert(ids[3] == product_id); }
        if product_id == 0x0094u16 { assert(ids[4] == product_id); }
        if product_id == 0x0092u16 { assert(ids[5] == product_id); }
    }
}

/// Law: a device with the RØDE vendor id 0x19F7 is recognised as a RØDECaster Pro II exactly
/// when its product id is one of those of the Pro II (0x0037, 0x0072, 0x0078, 0x0030, 0x0094,
/// 0x0092), and otherwise not at all; the same ids are those of the Pro II model, of the
/// registry that the device manager opens, and of the Pro II's own list.
pub proof fn lemma_detect_pro_ii(product_id: u16)
    ensures
        spec_detect(spec_known_devices(), 0x19F7u16, product_id) == if is_pro_ii_product(product_id) {
            Some(DeviceType::RodeCasterProII)
        } else {
            None
        },
        spec_detect(crate::device::registry::spec_registry(), 0x19F7u16, product_id) == if is_pro_ii_product(
            product_id,
        ) {
            Some(DeviceType::RodeCasterProII)
        } else {
            None
        },
        rodecaster_pro_ii::spec_pid_rodecaster_pro_ii().contains(product_id) <==> is_pro_ii_product(product_id),
        crate::device::model::spec_capabilities(crate::device::model::DeviceModel::ProII).product_ids.contains(
            product_id,
        ) <==> is_pro_ii_product(product_id),
        crate::device::model::spec_model_of(0x19F7u16, product_id) == if is_pro_ii_product(product_id) {
            Some(crate::device::model::DeviceModel::ProII)
        } else {
            None
        },
{
    lemma_pro_ii_ids(rodecaster_pro_ii::spec_pid_rodecaster_pro_ii(), product_id);
    lemma_pro_ii_ids(
        crate::device::model::spec_capabilities(crate::device::model::DeviceModel::ProII).product_ids,
        product_id,
    );
    reveal_with_fuel(spec_detect, 3);
    let es = spec_known_devices();
    assert(es.drop_first().drop_first() =~= Seq::<(u16, Seq<u16>, DeviceType)>::empty());
    let rs = crate::device::registry::spec_registry();
    assert(rs.drop_first() =~= Seq::<(u16, Seq<u16>, DeviceType)>::empty());
    assert(!crate::device::model::spec_capabilities(crate::device::model::DeviceModel::DUMMY).product_ids.contains(
        product_id,
    ));
}

} // verus!
