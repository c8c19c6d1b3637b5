use rodecaster_usb::error::{ParseError, UsbError, WriteError};
use rodecaster_usb::protocol::framing::{parse_raw_packet, PacketType};
use rodecaster_usb::protocol::packet::{DeviceReportPacket, PropertyUpdatePacket, RodeCasterPacket};
use rodecaster_usb::protocol::packets::handshake_packet::HandshakePacket;
use rodecaster_usb::protocol::packets::property_patch_packet::PropertyPatchPacket;
use rodecaster_usb::protocol::packets::{parse_packet, Packet};
use rodecaster_usb::protocol::types::structured::parse_structured;
use rodecaster_usb::protocol::types::value::Value;
use rodecaster_usb::protocol::Parseable;

fn patch_bytes() -> Vec<u8> {
    let mut b = vec![0x01, 0x01, 0x03, 0x01, 0x03, 0x02, 0x2C, 0x01, 0x00];
    b.extend_from_slice(b"gain\0");
    b.extend_from_slice(&[0x01, 0x05, 0x01, 0x05, 0x00, 0x00, 0x00]);
    b
}

#[test]
fn handshake_payload() {
    assert!(HandshakePacket::can_parse(&[0xAD, 0x10, 0xA7, 0xB0]));
    assert!(!HandshakePacket::can_parse(&[0xAD, 0x10, 0xA7]));
    let mut out = Vec::new();
    HandshakePacket {}.write_to(&mut out);
    assert_eq!(out, vec![0xAD, 0x10, 0xA7, 0xB0]);
}

#[test]
fn property_patch_encoding() {
    let p = PropertyPatchPacket::new(vec![3, 300, 0], "gain".to_string(), Value::U32(5));
    let mut out = Vec::new();
    p.write_to(&mut out).unwrap();
    assert_eq!(out, patch_bytes());
}

#[test]
fn property_patch_roundtrip() {
    let bytes = patch_bytes();
    let (rest, p) = PropertyPatchPacket::parse(&bytes).unwrap();
    assert_eq!(rest.len(), 0);
    assert_eq!(p.get_indices(), &vec![3, 300, 0]);
    assert_eq!(p.get_name(), "gain");
    assert_eq!(p.get_value(), &Value::U32(5));
}

#[test]
fn property_patch_with_too_large_index_is_not_written() {
    let p = PropertyPatchPacket::new(vec![1, 70_000], "x".to_string(), Value::Bool(true));
    let mut out = Vec::new();
    assert_eq!(p.write_to(&mut out), Err(WriteError::IndexTooLarge));
    // the bytes before the failing index stay
    assert_eq!(out, vec![0x01, 0x01, 0x02, 0x01, 0x01]);
}

#[test]
fn property_patch_with_bad_index_width_is_refused() {
    let data = [0x01, 0x01, 0x01, 0x05, 0x00];
    assert_eq!(PropertyPatchPacket::parse(&data).unwrap_err(), ParseError::Digit);
}

#[test]
fn packets_are_told_apart() {
    match parse_packet(&patch_bytes()).unwrap().1 {
        Packet::PropertyPatch(p) => assert_eq!(p.get_name(), "gain"),
        other => panic!("unexpected packet {:?}", other),
    }
    match parse_packet(&[0xAD, 0x10, 0xA7, 0xB0]).unwrap().1 {
        Packet::Handshake(_) => {}
        other => panic!("unexpected packet {:?}", other),
    }
    match parse_packet(&[0x09, 0x01]).unwrap().1 {
        Packet::Unknown(b) => assert_eq!(b, vec![0x09, 0x01]),
        other => panic!("unexpected packet {:?}", other),
    }
    let mut report = vec![0x02];
    report.extend_from_slice(b"ROOT\0");
    report.extend_from_slice(&[0x00, 0x00]);
    match parse_packet(&report).unwrap().1 {
        Packet::DeviceStatus(s) => assert_eq!(s.get_status().name, "ROOT"),
        other => panic!("unexpected packet {:?}", other),
    }
}

#[test]
fn property_update_encodes_like_a_patch() {
    let u = PropertyUpdatePacket { indices: vec![3, 300, 0], name: "gain".to_string(), value: Value::U32(5) };
    assert_eq!(u.to_bytes().unwrap(), patch_bytes());
    let bytes = patch_bytes();
    let (rest, back) = PropertyUpdatePacket::from_bytes(&bytes).unwrap();
    assert_eq!(rest.len(), 0);
    assert_eq!(back.indices, vec![3, 300, 0]);
    assert_eq!(back.value, Value::U32(5));
}

#[test]
fn property_update_errors() {
    let u = PropertyUpdatePacket { indices: vec![65_536], name: "a".to_string(), value: Value::Bool(true) };
    assert!(matches!(u.to_bytes(), Err(UsbError::ProtocolWrite(WriteError::IndexTooLarge))));
    assert_eq!(PropertyUpdatePacket::from_bytes(&[0x01, 0x02]).unwrap_err(), ParseError::Tag);
    assert_eq!(PropertyUpdatePacket::from_bytes(&[0x01, 0x01, 0x01, 0x03]).unwrap_err(), ParseError::Verify);
}

fn structured_bytes() -> Vec<u8> {
    let mut b = Vec::new();
    b.extend_from_slice(b"ROOT\0");
    b.extend_from_slice(&[0x01, 0x01]); // object with one property
    b.extend_from_slice(b"on\0");
    b.extend_from_slice(&[0x01, 0x01, 0x02]);
    b.extend_from_slice(&[0x01, 0x02]); // two children follow
    b.extend_from_slice(b"CH\0");
    b.extend_from_slice(&[0x00, 0x00]);
    b.extend_from_slice(b"CH\0");
    b.extend_from_slice(&[0x00, 0x00]);
    b
}

#[test]
fn structured_state_is_decoded() {
    let data = structured_bytes();
    let (rest, s) = parse_structured(&data).unwrap();
    assert_eq!(rest.len(), 0);
    assert_eq!(s.name, "ROOT");
    assert_eq!(s.properties.get(&"on".to_string()), Some(&Value::Bool(true)));
    assert_eq!(s.children.len(), 1);
    assert_eq!(s.children[0].0, "CH");
    assert_eq!(s.children[0].1.len(), 2);
}

#[test]
fn structured_state_refuses_unknown_bytes() {
    assert_eq!(parse_structured(b"N\0\x07").unwrap_err(), ParseError::Verify);
    assert_eq!(parse_structured(b"N\0\x00\x03").unwrap_err(), ParseError::Verify);
    assert_eq!(parse_structured(b"N\0\x01\x00\x05").unwrap_err(), ParseError::Verify);
}

#[test]
fn raw_packets_by_first_byte() {
    let mut report = vec![0x02];
    report.extend_from_slice(&structured_bytes());
    match parse_raw_packet(report).unwrap() {
        PacketType::DeviceReport(DeviceReportPacket { report }) => assert_eq!(report.name, "ROOT"),
        other => panic!("unexpected packet {:?}", other),
    }
    match parse_raw_packet(patch_bytes()).unwrap() {
        PacketType::PropertyUpdate(u) => assert_eq!(u.name, "gain"),
        other => panic!("unexpected packet {:?}", other),
    }
    match parse_raw_packet(vec![0x05, 0x06]).unwrap() {
        PacketType::Unknown(b) => assert_eq!(b, vec![0x05, 0x06]),
        other => panic!("unexpected packet {:?}", other),
    }
    match parse_raw_packet(vec![]).unwrap() {
        PacketType::Unknown(b) => assert!(b.is_empty()),
        other => panic!("unexpected packet {:?}", other),
    }
    assert!(matches!(parse_raw_packet(vec![0x01, 0x07]), Err(UsbError::FrameParse(ParseError::Tag))));
    assert!(matches!(parse_raw_packet(vec![0x02]), Err(UsbError::FrameParse(ParseError::Incomplete))));
}
