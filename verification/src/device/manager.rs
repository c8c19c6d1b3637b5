//! Identifiers of connected devices and the decisions of the hot-plug scan.

use crate::device::info::{descriptors_view, DeviceDescriptor, SpecDescriptor};
use crate::devices::{detect_device, spec_detect, spec_known_devices, DeviceType};
use crate::hotplug::{
    scan_events, spec_attached, spec_events, spec_removed, spec_synced, sync_devices, views, DeviceKey,
    ScanEvent, SpecHotPlugEvent,
};
use vstd::prelude::*;

verus! {

/// A connected device of a known family.
#[derive(Debug, Clone)]
pub struct DeviceIdentifier {
    pub device_type: DeviceType,
    pub device_info: DeviceDescriptor,
}

/// What tells devices apart: the family, the vendor and product id and the serial number.
impl View for DeviceIdentifier {
    type V = (DeviceType, u16, u16, Seq<char>);

    open spec fn view(&self) -> (DeviceType, u16, u16, Seq<char>) {
        (self.device_type, self.device_info.vendor_id, self.device_info.product_id, self.device_info.serial_number@)
    }
}

impl DeviceKey for DeviceIdentifier {
    fn same_device(&self, other: &Self) -> (r: bool) {
        self.device_type == other.device_type && self.device_info.vendor_id == other.device_info.vendor_id
            && self.device_info.product_id == other.device_info.product_id
            && self.device_info.serial_number == other.device_info.serial_number
    }

    fn duplicate(&self) -> (r: Self) {
        DeviceIdentifier { device_type: self.device_type, device_info: self.device_info.duplicate() }
    }
}

impl PartialEq for DeviceIdentifier {
    fn eq(&self, other: &Self) -> (r: bool) {
        self.same_device(other)
    }
}

impl vstd::std_specs::cmp::PartialEqSpecImpl for DeviceIdentifier {
    open spec fn obeys_eq_spec() -> bool {
        true
    }

    open spec fn eq_spec(&self, other: &Self) -> bool {
        self@ == other@
    }
}

/// A device that appeared or went away.
#[derive(Debug)]
pub enum HotPlugDeviceEvent {
    DeviceAttached(DeviceIdentifier),
    DeviceRemoved(DeviceIdentifier),
}

impl View for HotPlugDeviceEvent {
    type V = SpecHotPlugEvent<(DeviceType, u16, u16, Seq<char>)>;

    open spec fn view(&self) -> Self::V {
        match self {
            HotPlugDeviceEvent::DeviceAttached(d) => SpecHotPlugEvent::Attached(d@),
            HotPlugDeviceEvent::DeviceRemoved(d) => SpecHotPlugEvent::Removed(d@),
        }
    }
}

/// Messages to the hot-plug scan.
#[derive(Debug, PartialEq, Eq, Structural)]
pub enum HotPlugThreadManagement {
    Quit,
}

/// The descriptors of the found devices that are detected, in order.
pub open spec fn spec_detected_descriptors(found: Seq<SpecDescriptor>) -> Seq<SpecDescriptor>
    decreases found.len(),
{
    if found.len() == 0 {
        seq![]
    } else {
        let rest = spec_detected_descriptors(found.drop_last());
        let d = found.last();
        if spec_detect(spec_known_devices(), d.vendor_id, d.product_id) is Some {
            rest.push(d)
        } else {
            rest
        }
    }
}

/// The descriptors that a list of identifiers carries.
pub open spec fn descriptors_of(ids: Seq<DeviceIdentifier>) -> Seq<SpecDescriptor> {
    ids.map_values(|id: DeviceIdentifier| id.device_info@)
}

/// The identifiers of the found devices that belong to a known family, in order.
pub open spec fn spec_detected(found: Seq<SpecDescriptor>) -> Seq<(DeviceType, u16, u16, Seq<char>)>
    decreases found.len(),
{
    if found.len() == 0 {
        seq![]
    } else {
        let rest = spec_detected(found.drop_last());
        let d = found.last();
        match spec_detect(spec_known_devices(), d.vendor_id, d.product_id) {
            Some(t) => rest.push((t, d.vendor_id, d.product_id, d.serial_number)),
            None => rest,
        }
    }
}

/// The identifiers of the found devices that belong to a known family, in order.
pub fn detect_devices(found: &Vec<DeviceDescriptor>) -> (r: Vec<DeviceIdentifier>)
    ensures
        views(r@) == spec_detected(descriptors_view(found@)),
        descriptors_of(r@) == spec_detected_descriptors(descriptors_view(found@)),
{
    let mut r: Vec<DeviceIdentifier> = Vec::new();
    let mut i: usize = 0;
    while i < found.len()
        invariant
            i <= found@.len(),
            views(r@) == spec_detected(descriptors_view(found@).take(i as int)),
            descriptors_of(r@) == spec_detected_descriptors(descriptors_view(found@).take(i as int)),
        decreases found@.len() - i,
    {
        let d = &found[i];
        proof {
            assert(descriptors_view(found@).take(i + 1).drop_last() =~= descriptors_view(found@).take(i as int));
        }
        match detect_device(d.vendor_id, d.product_id) {
            Some(t) => {
                let id = DeviceIdentifier { device_type: t, device_info: d.duplicate() };
                proof {
                    assert(views(r@.push(id)) =~= views(r@).push(id@));
                assert(descriptors_of(r@.push(id)) =~= descriptors_of(r@).push(id.device_info@));
                }
                r.push(id);
            },
            None => {},
        }
        i = i + 1;
    }
    proof {
        assert(descriptors_view(found@).take(found@.len() as int) =~= descriptors_view(found@));
    }
    r
}

impl ScanEvent<DeviceIdentifier> for HotPlugDeviceEvent {
    open spec fn attached_event(d: DeviceIdentifier) -> HotPlugDeviceEvent {
        HotPlugDeviceEvent::DeviceAttached(d)
    }

    open spec fn removed_event(d: DeviceIdentifier) -> HotPlugDeviceEvent {
        HotPlugDeviceEvent::DeviceRemoved(d)
    }

    proof fn lemma_event_views(d: DeviceIdentifier) {
    }

    fn attached(d: DeviceIdentifier) -> (e: HotPlugDeviceEvent) {
        HotPlugDeviceEvent::DeviceAttached(d)
    }

    fn removed(d: DeviceIdentifier) -> (e: HotPlugDeviceEvent) {
        HotPlugDeviceEvent::DeviceRemoved(d)
    }
}

/// One round of the hot-plug scan: the known devices after it and the events to send, for
/// the devices that the HID layer lists. A device found more than once is attached as often
/// as it was found.
pub fn scan_step(known: &Vec<DeviceIdentifier>, found: &Vec<DeviceDescriptor>) -> (r: (Vec<DeviceIdentifier>, Vec<HotPlugDeviceEvent>))
    ensures
        views(r.0@) == spec_synced(views(known@), spec_detected(descriptors_view(found@)), false),
        views(r.1@) == spec_events(
            spec_attached(views(known@), spec_detected(descriptors_view(found@)), false),
            spec_removed(views(known@), spec_detected(descriptors_view(found@))),
        ),
        forall|k: int|
            0 <= k < r.0@.len() ==> known@.contains(#[trigger] r.0@[k]) || spec_detected_descriptors(
                descriptors_view(found@),
            ).contains(r.0@[k].device_info@),
        forall|i: int|
            0 <= i < r.1@.len() ==> match #[trigger] r.1@[i] {
                HotPlugDeviceEvent::DeviceAttached(d) => spec_detected_descriptors(descriptors_view(found@)).contains(
                    d.device_info@,
                ),
                HotPlugDeviceEvent::DeviceRemoved(d) => known@.contains(d),
            },
        forall|k: int|
            0 <= k < r.0@.len() ==> (views(known@).contains(#[trigger] r.0@[k]@) ==> known@.contains(
                r.0@[k],
            )),
{
    let detected = detect_devices(found);
    let sync = sync_devices(known, &detected, false);
    let ghost attached = sync.attached@;
    let ghost removed = sync.removed@;
    let events: Vec<HotPlugDeviceEvent> = scan_events(sync.attached, sync.removed);
    proof {
        let dd = spec_detected_descriptors(descriptors_view(found@));
        assert forall|x: DeviceIdentifier| detected@.contains(x) implies dd.contains(x.device_info@) by {
            let j = choose|j: int| 0 <= j < detected@.len() && detected@[j] == x;
            assert(descriptors_of(detected@)[j] == x.device_info@);
        }
        assert forall|i: int| 0 <= i < events@.len() implies match #[trigger] events@[i] {
            HotPlugDeviceEvent::DeviceAttached(d) => dd.contains(d.device_info@),
            HotPlugDeviceEvent::DeviceRemoved(d) => known@.contains(d),
        } by {
            if i < attached.len() {
                assert(events@[i] == HotPlugDeviceEvent::DeviceAttached(attached[i]));
                assert(detected@.contains(attached[i]));
            } else {
                let k = i - attached.len();
                assert(events@[attached.len() + k] == HotPlugDeviceEvent::DeviceRemoved(removed[k]));
                assert(known@.contains(removed[k]));
            }
        }
        assert forall|k: int| 0 <= k < sync.known@.len() implies known@.contains(#[trigger] sync.known@[k]) || dd.contains(
            sync.known@[k].device_info@,
        ) by {
            if !known@.contains(sync.known@[k]) {
                assert(detected@.contains(sync.known@[k]));
            }
        }
    }
    (sync.known, events)
}

} // verus!
