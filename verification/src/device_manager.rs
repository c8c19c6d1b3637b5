//! Device manager of the first generation: it recognises the RØDECaster Pro II by its ids and
//! keeps the list of connected devices, attaching each device once.

use crate::device::info::{descriptors_view, DeviceDescriptor, SpecDescriptor};
use crate::devices::contains_id;
use crate::devices::rodecaster_pro_ii::{pid_rodecaster_pro_ii, spec_pid_rodecaster_pro_ii};
use crate::hotplug::{
    scan_events, spec_attached, spec_events, spec_removed, spec_synced, sync_devices, views, DeviceKey,
    ScanEvent, SpecHotPlugEvent,
};
use vstd::prelude::*;

verus! {

/// USB vendor id of RØDE devices.
pub const VID_RODE: u16 = 0x19f7;

/// A supported device family.
#[derive(PartialEq, Eq, Debug, Clone, Copy, Structural)]
pub enum DeviceType {
    RodeCasterProII,
}

/// A connected supported device.
#[derive(Debug, Clone)]
pub struct DeviceIdentifier {
    device_type: DeviceType,
    device_info: DeviceDescriptor,
}

/// What tells devices apart: the family, the vendor and product id and the serial number.
impl View for DeviceIdentifier {
    type V = (DeviceType, u16, u16, Seq<char>);

    closed spec fn view(&self) -> (DeviceType, u16, u16, Seq<char>) {
        (self.device_type, self.device_info.vendor_id, self.device_info.product_id, self.device_info.serial_number@)
    }
}

impl DeviceIdentifier {
    /// What the HID layer reported of the device.
    pub closed spec fn descriptor(&self) -> SpecDescriptor {
        self.device_info@
    }

    /// The family of the device.
    pub fn device_type(&self) -> (r: DeviceType)
        ensures
            r == self@.0,
    {
        self.device_type
    }

    /// What the HID layer reported of the device.
    pub fn device_info(&self) -> (r: &DeviceDescriptor)
        ensures
            r@.vendor_id == self@.1,
            r@.product_id == self@.2,
            r@.serial_number == self@.3,
            r@ == self.descriptor(),
    {
        &self.device_info
    }
}

impl DeviceKey for DeviceIdentifier {
    fn same_device(&self, other: &Self) -> (r: bool) {
        self.device_info.vendor_id == other.device_info.vendor_id
            && self.device_info.product_id == other.device_info.product_id
            && self.device_info.serial_number == other.device_info.serial_number
            && self.device_type == other.device_type
    }

    fn duplicate(&self) -> (r: Self) {
        DeviceIdentifier { device_type: self.device_type, device_info: self.device_info.duplicate() }
    }
}

impl PartialEq for DeviceIdentifier {
    fn eq(&self, other: &Self) -> (r: bool) {
        self.same_device(other)
    }
}

impl vstd::std_specs::cmp::PartialEqSpecImpl for DeviceIdentifier {
    open spec fn obeys_eq_spec() -> bool {
        true
    }

    open spec fn eq_spec(&self, other: &Self) -> bool {
        self@ == other@
    }
}

/// Messages to the hot-plug scan.
#[derive(PartialEq, Eq, Debug, Structural)]
pub enum HotPlugThreadManagement {
    Quit,
}

/// A device that appeared or went away.
#[derive(Debug)]
pub enum HotPlugDeviceEvent {
    DeviceAttached(DeviceIdentifier),
    DeviceRemoved(DeviceIdentifier),
}

impl View for HotPlugDeviceEvent {
    type V = SpecHotPlugEvent<(DeviceType, u16, u16, Seq<char>)>;

    open spec fn view(&self) -> Self::V {
        match self {
            HotPlugDeviceEvent::DeviceAttached(d) => SpecHotPlugEvent::Attached(d@),
            HotPlugDeviceEvent::DeviceRemoved(d) => SpecHotPlugEvent::Removed(d@),
        }
    }
}

/// The descriptors of the found devices that are a RØDECaster Pro II, in order.
pub open spec fn spec_detected_descriptors(found: Seq<SpecDescriptor>) -> Seq<SpecDescriptor>
    decreases found.len(),
{
    if found.len() == 0 {
        seq![]
    } else {
        let rest = spec_detected_descriptors(found.drop_last());
        let d = found.last();
        if d.vendor_id == VID_RODE && spec_pid_rodecaster_pro_ii().contains(d.product_id) {
            rest.push(d)
        } else {
            rest
        }
    }
}

/// The descriptors that a list of identifiers carries.
pub open spec fn descriptors_of(ids: Seq<DeviceIdentifier>) -> Seq<SpecDescriptor> {
    ids.map_values(|id: DeviceIdentifier| id.descriptor())
}

/// The identifiers of the found devices that are a RØDECaster Pro II (the RØDE vendor id and
/// one of its product ids), in order.
pub open spec fn spec_detected(found: Seq<SpecDescriptor>) -> Seq<(DeviceType, u16, u16, Seq<char>)>
    decreases found.len(),
{
    if found.len() == 0 {
        seq![]
    } else {
        let rest = spec_detected(found.drop_last());
        let d = found.last();
        if d.vendor_id == VID_RODE && spec_pid_rodecaster_pro_ii().contains(d.product_id) {
            rest.push((DeviceType::RodeCasterProII, d.vendor_id, d.product_id, d.serial_number))
        } else {
            rest
        }
    }
}

/// The identifiers of the found devices that are a RØDECaster Pro II, in order.
pub fn detect_devices(found: &Vec<DeviceDescriptor>) -> (r: Vec<DeviceIdentifier>)
    ensures
        views(r@) == spec_detected(descriptors_view(found@)),
        descriptors_of(r@) == spec_detected_descriptors(descriptors_view(found@)),
{
    let pids = pid_rodecaster_pro_ii();
    let mut r: Vec<DeviceIdentifier> = Vec::new();
    let mut i: usize = 0;
    while i < found.len()
        invariant
            i <= found@.len(),
            pids@ == spec_pid_rodecaster_pro_ii(),
            views(r@) == spec_detected(descriptors_view(found@).take(i as int)),
            descriptors_of(r@) == spec_detected_descriptors(descriptors_view(found@).take(i as int)),
        decreases found@.len() - i,
    {
        let d = &found[i];
        proof {
            assert(descriptors_view(found@).take(i + 1).drop_last() =~= descriptors_view(found@).take(i as int));
        }
        if d.vendor_id == VID_RODE && contains_id(&pids, d.product_id) {
            let id = DeviceIdentifier { device_type: DeviceType::RodeCasterProII, device_info: d.duplicate() };
            proof {
                assert(views(r@.push(id)) =~= views(r@).push(id@));
                assert(descriptors_of(r@.push(id)) =~= descriptors_of(r@).push(id.descriptor()));
            }
            r.push(id);
        }
        i = i + 1;
    }
    proof {
        assert(descriptors_view(found@).take(found@.len() as int) =~= descriptors_view(found@));
    }
    r
}

impl ScanEvent<DeviceIdentifier> for HotPlugDeviceEvent {
    open spec fn attached_event(d: DeviceIdentifier) -> HotPlugDeviceEvent {
        HotPlugDeviceEvent::DeviceAttached(d)
    }

    open spec fn removed_event(d: DeviceIdentifier) -> HotPlugDeviceEvent {
        HotPlugDeviceEvent::DeviceRemoved(d)
    }

    proof fn lemma_event_views(d: DeviceIdentifier) {
    }

    fn attached(d: DeviceIdentifier) -> (e: HotPlugDeviceEvent) {
        HotPlugDeviceEvent::DeviceAttached(d)
    }

    fn removed(d: DeviceIdentifier) -> (e: HotPlugDeviceEvent) {
        HotPlugDeviceEvent::DeviceRemoved(d)
    }
}

/// One round of the hot-plug scan: the known devices after it and the events to send, for
/// the devices that the HID layer lists. A device that is known already is not added again.
pub fn scan_step(known: &Vec<DeviceIdentifier>, found: &Vec<DeviceDescriptor>) -> (r: (Vec<DeviceIdentifier>, Vec<HotPlugDeviceEvent>))
    ensures
        views(r.0@) == spec_synced(views(known@), spec_detected(descriptors_view(found@)), true),
        views(r.1@) == spec_events(
            spec_attached(views(known@), spec_detected(descriptors_view(found@)), true),
            spec_removed(views(known@), spec_detected(descriptors_view(found@))),
        ),
        forall|k: int|
            0 <= k < r.0@.len() ==> (views(known@).contains(#[trigger] r.0@[k]@) ==> known@.contains(
                r.0@[k],
            )),
        forall|k: int|
            0 <= k < r.0@.len() ==> known@.contains(#[trigger] r.0@[k]) || spec_detected_descriptors(
                descriptors_view(found@),
            ).contains(r.0@[k].descriptor()),
        forall|i: int|
            0 <= i < r.1@.len() ==> match #[trigger] r.1@[i] {
                HotPlugDeviceEvent::DeviceAttached(d) => spec_detected_descriptors(descriptors_view(found@)).contains(
                    d.descriptor(),
                ),
                HotPlugDeviceEvent::DeviceRemoved(d) => known@.contains(d),
            },
{
    let detected = detect_devices(found);
    let sync = sync_devices(known, &detected, true);
    let ghost attached = sync.attached@;
    let ghost removed = sync.removed@;
    let events: Vec<HotPlugDeviceEvent> = scan_events(sync.attached, sync.removed);
    proof {
        let dd = spec_detected_descriptors(descriptors_view(found@));
        assert forall|x: DeviceIdentifier| detected@.contains(x) implies dd.contains(x.descriptor()) by {
            let j = choose|j: int| 0 <= j < detected@.len() && detected@[j] == x;
            assert(descriptors_of(detected@)[j] == x.descriptor());
        }
        assert forall|i: int| 0 <= i < events@.len() implies match #[trigger] events@[i] {
            HotPlugDeviceEvent::DeviceAttached(d) => dd.contains(d.descriptor()),
            HotPlugDeviceEvent::DeviceRemoved(d) => known@.contains(d),
        } by {
            if i < attached.len() {
                assert(events@[i] == HotPlugDeviceEvent::DeviceAttached(attached[i]));
                assert(detected@.contains(attached[i]));
            } else {
                let k = i - attached.len();
                assert(events@[attached.len() + k] == HotPlugDeviceEvent::DeviceRemoved(removed[k]));
                assert(known@.contains(removed[k]));
            }
        }
        assert forall|k: int| 0 <= k < sync.known@.len() implies known@.contains(#[trigger] sync.known@[k]) || dd.contains(
            sync.known@[k].descriptor(),
        ) by {
            if !known@.contains(sync.known@[k]) {
                assert(detected@.contains(sync.known@[k]));
            }
        }
    }
    (sync.known, events)
}

} // verus!
