use rodecaster_usb::device::info::DeviceDescriptor;
use rodecaster_usb::device::io::{rx_outcome, tx_packet, IoRxEvent, IoTxEvent, RxOutcome};
use rodecaster_usb::device::model::DeviceModel;
use rodecaster_usb::device::state::{state_step, StateAction};
use rodecaster_usb::device::manager::{detect_devices, scan_step, HotPlugDeviceEvent};
use rodecaster_usb::device::registry::known_devices;
use rodecaster_usb::device_manager;
use rodecaster_usb::devices::dummy_device::backend::DummyDeviceBackend;
use rodecaster_usb::devices::backend::DeviceBackend;
use rodecaster_usb::devices::rodecaster_pro_ii::io::{init_payload, read_outcome, ReadOutcome};
use rodecaster_usb::devices::rodecaster_pro_ii::state::RodeCasterProIIState;
use rodecaster_usb::devices::rodecaster_pro_ii::handle::RodeCasterProIIEvent;
use rodecaster_usb::devices::{detect_device, DeviceType};
use rodecaster_usb::error::{ParseError, UsbError};
use rodecaster_usb::hotplug::DeviceKey;
use rodecaster_usb::manager::{self, DeviceStateChanged};
use rodecaster_usb::protocol::packets::property_patch_packet::PropertyPatchPacket;
use rodecaster_usb::protocol::packets::{parse_packet, Packet};
use rodecaster_usb::protocol::types::composite::{Composite, CompositeType};
use rodecaster_usb::protocol::types::property_map::PropertyMap;
use rodecaster_usb::protocol::types::value::Value;
use rodecaster_usb::rodecaster_pro_ii::{init_command, interrupt_report};

fn descriptor(vid: u16, pid: u16, serial: &str) -> DeviceDescriptor {
    DeviceDescriptor { vendor_id: vid, product_id: pid, serial_number: serial.to_string(), release_number: 0x0102 }
}

#[test]
fn model_capabilities() {
    let pro = DeviceModel::ProII.capabilities();
    assert_eq!(pro.name(), "RØDECaster Pro II");
    assert_eq!(pro.vendor_id(), 0x19f7);
    assert_eq!(pro.product_ids(), &vec![0x0037, 0x0072, 0x0078, 0x0030, 0x0094, 0x0092]);
    let dummy = DeviceModel::DUMMY.capabilities();
    assert_eq!(dummy.name(), "Dummy");
    assert!(dummy.product_ids().is_empty());
}

#[test]
fn model_from_ids() {
    assert_eq!(DeviceModel::from_ids(0x19f7, 0x0078), Some(DeviceModel::ProII));
    assert_eq!(DeviceModel::from_ids(0x19f7, 0x0001), None);
    assert_eq!(DeviceModel::from_ids(0x1234, 0x0078), None);
}

#[test]
fn registry_detection() {
    assert_eq!(detect_device(0x19F7, 0x0092), Some(DeviceType::RodeCasterProII));
    assert_eq!(detect_device(0xFFFF, 0xFFFF), Some(DeviceType::DummyDevice));
    assert_eq!(detect_device(0xFFFF, 0x0092), None);
    let entries = known_devices();
    assert_eq!(entries.len(), 1);
    assert_eq!(entries[0].device_type, DeviceType::RodeCasterProII);
}

#[test]
fn hotplug_scan_attaches_and_removes() {
    let found = vec![descriptor(0x19F7, 0x0037, "A"), descriptor(0x1111, 0x2222, "X"), descriptor(0xFFFF, 0xFFFF, "D")];
    let (known, events) = scan_step(&vec![], &found);
    assert_eq!(known.len(), 2);
    assert_eq!(known[0].device_type, DeviceType::RodeCasterProII);
    assert_eq!(known[1].device_type, DeviceType::DummyDevice);
    assert_eq!(events.len(), 2);
    assert!(matches!(&events[0], HotPlugDeviceEvent::DeviceAttached(d) if d.device_info.serial_number == "A"));

    // a rescan with the same devices changes nothing
    let (known2, events2) = scan_step(&known, &found);
    assert_eq!(known2.len(), 2);
    assert!(events2.is_empty());

    // the dummy device is gone
    let (known3, events3) = scan_step(&known2, &found[..1].to_vec());
    assert_eq!(known3.len(), 1);
    assert_eq!(events3.len(), 1);
    assert!(matches!(&events3[0], HotPlugDeviceEvent::DeviceRemoved(d) if d.device_type == DeviceType::DummyDevice));
}

#[test]
fn device_identifiers_compare_without_release_number() {
    let a = detect_devices(&vec![descriptor(0x19F7, 0x0037, "A")]);
    let mut other = descriptor(0x19F7, 0x0037, "A");
    other.release_number = 9;
    let b = detect_devices(&vec![other]);
    assert!(a[0] == b[0]);
    assert!(a[0].same_device(&b[0]));
    let c = detect_devices(&vec![descriptor(0x19F7, 0x0037, "B")]);
    assert!(a[0] != c[0]);
}

#[test]
fn first_generation_manager_attaches_each_device_once() {
    let found = vec![descriptor(0x19F7, 0x0072, "S1"), descriptor(0x19F7, 0x0072, "S1"), descriptor(0xFFFF, 0xFFFF, "D")];
    let (known, events) = device_manager::scan_step(&vec![], &found);
    assert_eq!(known.len(), 1);
    assert_eq!(events.len(), 1);
    assert_eq!(known[0].device_type(), device_manager::DeviceType::RodeCasterProII);
    assert_eq!(known[0].device_info().serial_number, "S1");
    let (known2, events2) = device_manager::scan_step(&known, &vec![]);
    assert!(known2.is_empty());
    assert!(matches!(&events2[0], device_manager::HotPlugDeviceEvent::DeviceRemoved(_)));
}

#[test]
fn device_manager_connects_devices_found_twice_twice() {
    let found = vec![descriptor(0x19F7, 0x0094, "Z"), descriptor(0x19F7, 0x0094, "Z")];
    let (known, events) = manager::scan_step(&vec![], &found);
    assert_eq!(known.len(), 2);
    assert_eq!(events.len(), 2);
    assert_eq!(known[0].device_model, DeviceModel::ProII);
    assert_eq!(known[0].version, 0x0102);
    assert!(matches!(&events[1], DeviceStateChanged::Connected(d) if d.serial_number == "Z"));
    let (known2, events2) = manager::scan_step(&known, &found);
    assert_eq!(known2.len(), 2);
    assert!(events2.is_empty());
}

#[test]
fn identifier_from_descriptor() {
    let id = manager::DeviceIdentifier::from(descriptor(0x19F7, 0x0030, "Q"));
    assert_eq!(id.device_model, DeviceModel::ProII);
    assert_eq!(id.vendor_id, 0x19F7);
    assert_eq!(id.product_id, 0x0030);
    assert_eq!(id.serial_number, "Q");
    assert_eq!(id.version, 0x0102);
}

#[test]
fn dummy_device_opens() {
    let ids = detect_devices(&vec![descriptor(0xFFFF, 0xFFFF, "")]);
    let id = ids.into_iter().next().unwrap();
    assert!(DummyDeviceBackend::open(id).is_ok());
}

fn radio_tree() -> Composite {
    let mut properties = PropertyMap::new();
    properties.insert("gain".to_string(), Value::U32(3));
    properties.insert("muted".to_string(), Value::Bool(false));
    Composite {
        name: "RADIO".to_string(),
        composite_type: CompositeType::Object,
        has_children: false,
        properties,
        children: vec![],
    }
}

fn status_packet_bytes() -> Vec<u8> {
    let mut b = vec![0x02];
    b.extend_from_slice(b"RADIO\0");
    b.extend_from_slice(&[0x01, 0x01]);
    b.extend_from_slice(b"gain\0");
    b.extend_from_slice(&[0x01, 0x05, 0x01, 0x03, 0x00, 0x00, 0x00]);
    b.push(0x00);
    b
}

#[test]
fn state_follows_reports_and_patches() {
    let mut state = RodeCasterProIIState::default();
    assert!(state.root.is_none());
    // a patch without a state tree is dropped
    state.apply_property_update(PropertyPatchPacket::new(vec![], "gain".to_string(), Value::U32(9)));
    assert!(state.root.is_none());

    let report = match parse_packet(&status_packet_bytes()).unwrap().1 {
        Packet::DeviceStatus(p) => p,
        other => panic!("unexpected packet {:?}", other),
    };
    state.apply_device_report(report);
    assert_eq!(state.root.as_ref().unwrap().name, "RADIO");

    state.apply_property_update(PropertyPatchPacket::new(vec![], "gain".to_string(), Value::U32(9)));
    assert_eq!(state.root.as_ref().unwrap().properties.get(&"gain".to_string()), Some(&Value::U32(9)));

    // a refused patch (wrong type) leaves the tree as it was
    state.apply_event(RodeCasterProIIEvent::PropertyPatchReceived(PropertyPatchPacket::new(
        vec![],
        "gain".to_string(),
        Value::Bool(true),
    )));
    assert_eq!(state.root.as_ref().unwrap().properties.get(&"gain".to_string()), Some(&Value::U32(9)));
}

#[test]
fn state_loop_steps() {
    let mut tree = radio_tree();
    let action = state_step(&mut tree, IoRxEvent::PropertyPatchReceived(PropertyPatchPacket::new(
        vec![],
        "muted".to_string(),
        Value::Bool(true),
    )));
    assert_eq!(action, StateAction::Continue);
    assert_eq!(tree.properties.get(&"muted".to_string()), Some(&Value::Bool(true)));
    // the other property keeps its value
    assert_eq!(tree.properties.get(&"gain".to_string()), Some(&Value::U32(3)));
    assert_eq!(state_step(&mut tree, IoRxEvent::Disconnect), StateAction::Stop);
    assert_eq!(state_step(&mut tree, IoRxEvent::UnknownPacket(vec![1])), StateAction::Continue);
    assert_eq!(state_step(&mut tree, IoRxEvent::Error(UsbError::Timeout)), StateAction::Wait);
    let report = match parse_packet(&status_packet_bytes()).unwrap().1 {
        Packet::DeviceStatus(p) => p,
        other => panic!("unexpected packet {:?}", other),
    };
    assert_eq!(state_step(&mut tree, IoRxEvent::DeviceReportReceived(report)), StateAction::SignalReady);
    assert!(tree.properties.get(&"muted".to_string()).is_none());
}

#[test]
fn receive_loop_outcomes() {
    assert!(matches!(rx_outcome(&[]), RxOutcome::Idle));
    assert!(matches!(rx_outcome(&[0xAD, 0x10, 0xA7, 0xB0]), RxOutcome::Event(IoRxEvent::Error(UsbError::UnexpectedPacket))));
    assert!(matches!(rx_outcome(&[0x09]), RxOutcome::Event(IoRxEvent::UnknownPacket(_))));
    assert!(matches!(rx_outcome(&status_packet_bytes()), RxOutcome::Event(IoRxEvent::DeviceReportReceived(_))));
    assert!(matches!(rx_outcome(&[0x01, 0x01, 0x01, 0x07]), RxOutcome::Event(IoRxEvent::Error(UsbError::FrameParse(ParseError::Digit)))));
    assert!(matches!(read_outcome(&[]), ReadOutcome::Idle));
    assert!(matches!(read_outcome(&status_packet_bytes()), ReadOutcome::Event(RodeCasterProIIEvent::DeviceReportReceived(_))));
}

#[test]
fn send_loop_packets() {
    assert!(matches!(tx_packet(IoTxEvent::Close), Ok(None)));
    assert_eq!(tx_packet(IoTxEvent::SendHandshake).unwrap().unwrap(), vec![0xAD, 0x10, 0xA7, 0xB0]);
    let p = PropertyPatchPacket::new(vec![1], "on".to_string(), Value::Bool(true));
    assert_eq!(
        tx_packet(IoTxEvent::SendPropertyPatch(p)).unwrap().unwrap(),
        vec![0x01, 0x01, 0x01, 0x01, 0x01, b'o', b'n', 0x00, 0x01, 0x01, 0x02]
    );
}

#[test]
fn raw_interrupt_reports() {
    let init = init_command();
    assert_eq!(init, vec![0x03, 0x04, 0x00, 0x00, 0x00, 0xAD, 0x10, 0xA7, 0xB0]);
    assert_eq!(&init[5..], init_payload().as_slice());
    let r = interrupt_report(&init);
    assert_eq!(r.len(), 256);
    assert_eq!(&r[..9], init.as_slice());
    assert!(r[9..].iter().all(|b| *b == 0));
}
