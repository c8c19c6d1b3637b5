//! Device manager: which connected devices are supported, and the list of connected devices
//! that a periodic scan keeps.

use crate::device::info::{descriptors_view, DeviceDescriptor, SpecDescriptor};
use crate::device::model::{spec_model_of, DeviceModel};
use crate::hotplug::{
    scan_events, spec_attached, spec_events, spec_removed, spec_synced, sync_devices, views, DeviceKey,
    ScanEvent, SpecHotPlugEvent,
};
use vstd::prelude::*;

verus! {

/// Information about a connected device.
#[derive(Debug, Clone)]
pub struct DeviceIdentifier {
    pub device_model: DeviceModel,
    pub vendor_id: u16,
    pub product_id: u16,
    pub serial_number: String,
    pub version: u16,
    pub device_info: DeviceDescriptor,
}

/// What tells devices apart: everything but the HID layer's own record.
impl View for DeviceIdentifier {
    type V = (u16, u16, Seq<char>, u16, DeviceModel);

    open spec fn view(&self) -> (u16, u16, Seq<char>, u16, DeviceModel) {
        (self.vendor_id, self.product_id, self.serial_number@, self.version, self.device_model)
    }
}

impl DeviceKey for DeviceIdentifier {
    fn same_device(&self, other: &Self) -> (r: bool) {
        self.vendor_id == other.vendor_id && self.product_id == other.product_id
            && self.serial_number == other.serial_number && self.version == other.version
            && self.device_model == other.device_model
    }

    fn duplicate(&self) -> (r: Self) {
        DeviceIdentifier {
            device_model: self.device_model,
            vendor_id: self.vendor_id,
            product_id: self.product_id,
            serial_number: self.serial_number.clone(),
            version: self.version,
            device_info: self.device_info.duplicate(),
        }
    }
}

impl PartialEq for DeviceIdentifier {
    fn eq(&self, other: &Self) -> (r: bool) {
        self.same_device(other)
    }
}

impl vstd::std_specs::cmp::PartialEqSpecImpl for DeviceIdentifier {
    open spec fn obeys_eq_spec() -> bool {
        true
    }

    open spec fn eq_spec(&self, other: &Self) -> bool {
        self@ == other@
    }
}

/// The identifier of a device from what the HID layer reports: taken as a RØDECaster Pro
/// II, with the release number as its version.
pub open spec fn spec_identifier(d: DeviceDescriptor) -> DeviceIdentifier {
    DeviceIdentifier {
        device_model: DeviceModel::ProII,
        vendor_id: d.vendor_id,
        product_id: d.product_id,
        serial_number: d.serial_number,
        version: d.release_number,
        device_info: d,
    }
}

impl From<DeviceDescriptor> for DeviceIdentifier {
    fn from(value: DeviceDescriptor) -> (r: DeviceIdentifier) {
        DeviceIdentifier {
            device_model: DeviceModel::ProII,
            vendor_id: value.vendor_id,
            product_id: value.product_id,
            serial_number: value.serial_number.clone(),
            version: value.release_number,
            device_info: value,
        }
    }
}

impl vstd::std_specs::convert::FromSpecImpl<DeviceDescriptor> for DeviceIdentifier {
    open spec fn obeys_from_spec() -> bool {
        true
    }

    open spec fn from_spec(v: DeviceDescriptor) -> DeviceIdentifier {
        spec_identifier(v)
    }
}

/// A device that was connected or disconnected.
#[derive(Debug)]
pub enum DeviceStateChanged {
    Connected(DeviceIdentifier),
    Disconnected(DeviceIdentifier),
}

impl View for DeviceStateChanged {
    type V = SpecHotPlugEvent<(u16, u16, Seq<char>, u16, DeviceModel)>;

    open spec fn view(&self) -> Self::V {
        match self {
            DeviceStateChanged::Connected(d) => SpecHotPlugEvent::Attached(d@),
            DeviceStateChanged::Disconnected(d) => SpecHotPlugEvent::Removed(d@),
        }
    }
}

/// The descriptors of the found devices that are detected, in order.
pub open spec fn spec_detected_descriptors(found: Seq<SpecDescriptor>) -> Seq<SpecDescriptor>
    decreases found.len(),
{
    if found.len() == 0 {
        seq![]
    } else {
        let rest = spec_detected_descriptors(found.drop_last());
        let d = found.last();
        if spec_model_of(d.vendor_id, d.product_id) is Some {
            rest.push(d)
        } else {
            rest
        }
    }
}

/// The descriptors that a list of identifiers carries.
pub open spec fn descriptors_of(ids: Seq<DeviceIdentifier>) -> Seq<SpecDescriptor> {
    ids.map_values(|id: DeviceIdentifier| id.device_info@)
}

/// The identifiers of the found devices of a known model, in order.
pub open spec fn spec_detected(found: Seq<SpecDescriptor>) -> Seq<(u16, u16, Seq<char>, u16, DeviceModel)>
    decreases found.len(),
{
    if found.len() == 0 {
        seq![]
    } else {
        let rest = spec_detected(found.drop_last());
        let d = found.last();
        if spec_model_of(d.vendor_id, d.product_id) is Some {
            rest.push((d.vendor_id, d.product_id, d.serial_number, d.release_number, DeviceModel::ProII))
        } else {
            rest
        }
    }
}

/// The identifiers of the found devices of a known model, in order.
pub fn detect_devices(found: &Vec<DeviceDescriptor>) -> (r: Vec<DeviceIdentifier>)
    ensures
        views(r@) == spec_detected(descriptors_view(found@)),
        descriptors_of(r@) == spec_detected_descriptors(descriptors_view(found@)),
{
    let mut r: Vec<DeviceIdentifier> = Vec::new();
    let mut i: usize = 0;
    while i < found.len()
        invariant
            i <= found@.len(),
            views(r@) == spec_detected(descriptors_view(found@).take(i as int)),
            descriptors_of(r@) == spec_detected_descriptors(descriptors_view(found@).take(i as int)),
        decreases found@.len() - i,
    {
        let d = &found[i];
        proof {
            assert(descriptors_view(found@).take(i + 1).drop_last() =~= descriptors_view(found@).take(i as int));
        }
        if DeviceModel::from_ids(d.vendor_id, d.product_id).is_some() {
            let id = DeviceIdentifier::from(d.duplicate());
            proof {
                assert(views(r@.push(id)) =~= views(r@).push(id@));
                assert(descriptors_of(r@.push(id)) =~= descriptors_of(r@).push(id.device_info@));
            }
            r.push(id);
        }
        i = i + 1;
    }
    proof {
        assert(descriptors_view(found@).take(found@.len() as int) =~= descriptors_view(found@));
    }
    r
}

impl ScanEvent<DeviceIdentifier> for DeviceStateChanged {
    open spec fn attached_event(d: DeviceIdentifier) -> DeviceStateChanged {
        DeviceStateChanged::Connected(d)
    }

    open spec fn removed_event(d: DeviceIdentifier) -> DeviceStateChanged {
        DeviceStateChanged::Disconnected(d)
    }

    proof fn lemma_event_views(d: DeviceIdentifier) {
    }

    fn attached(d: DeviceIdentifier) -> (e: DeviceStateChanged) {
        DeviceStateChanged::Connected(d)
    }

    fn removed(d: DeviceIdentifier) -> (e: DeviceStateChanged) {
        DeviceStateChanged::Disconnected(d)
    }
}

/// One round of the device scan: the known devices after it and the events to send, for the
/// devices that the HID layer lists. A device found more than once is connected as often as
/// it was found.
pub fn scan_step(known: &Vec<DeviceIdentifier>, found: &Vec<DeviceDescriptor>) -> (r: (Vec<DeviceIdentifier>, Vec<DeviceStateChanged>))
    ensures
        views(r.0@) == spec_synced(views(known@), spec_detected(descriptors_view(found@)), false),
        views(r.1@) == spec_events(
            spec_attached(views(known@), spec_detected(descriptors_view(found@)), false),
            spec_removed(views(known@), spec_detected(descriptors_view(found@))),
        ),
        forall|k: int|
            0 <= k < r.0@.len() ==> known@.contains(#[trigger] r.0@[k]) || spec_detected_descriptors(
                descriptors_view(found@),
            ).contains(r.0@[k].device_info@),
        forall|i: int|
            0 <= i < r.1@.len() ==> match #[trigger] r.1@[i] {
                DeviceStateChanged::Connected(d) => spec_detected_descriptors(descriptors_view(found@)).contains(
                    d.device_info@,
                ),
                DeviceStateChanged::Disconnected(d) => known@.contains(d),
            },
        forall|k: int|
            0 <= k < r.0@.len() ==> (views(known@).contains(#[trigger] r.0@[k]@) ==> known@.contains(
                r.0@[k],
            )),
{
    let detected = detect_devices(found);
    let sync = sync_devices(known, &detected, false);
    let ghost attached = sync.attached@;
    let ghost removed = sync.removed@;
    let events: Vec<DeviceStateChanged> = scan_events(sync.attached, sync.removed);
    proof {
        let dd = spec_detected_descriptors(descriptors_view(found@));
        assert forall|x: DeviceIdentifier| detected@.contains(x) implies dd.contains(x.device_info@) by {
            let j = choose|j: int| 0 <= j < detected@.len() && detected@[j] == x;
            assert(descriptors_of(detected@)[j] == x.device_info@);
        }
        assert forall|i: int| 0 <= i < events@.len() implies match #[trigger] events@[i] {
            DeviceStateChanged::Connected(d) => dd.contains(d.device_info@),
            DeviceStateChanged::Disconnected(d) => known@.contains(d),
        } by {
            if i < attached.len() {
                assert(events@[i] == DeviceStateChanged::Connected(attached[i]));
                assert(detected@.contains(attached[i]));
            } else {
                let k = i - attached.len();
                assert(events@[attached.len() + k] == DeviceStateChanged::Disconnected(removed[k]));
                assert(known@.contains(removed[k]));
            }
        }
        assert forall|k: int| 0 <= k < sync.known@.len() implies known@.contains(#[trigger] sync.known@[k]) || dd.contains(
            sync.known@[k].device_info@,
        ) by {
            if !known@.contains(sync.known@[k]) {
                assert(detected@.contains(sync.known@[k]));
            }
        }
    }
    (sync.known, events)
}

} // verus!
