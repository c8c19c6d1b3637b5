use rodecaster_usb::error::{Decoded, ParseError};
use rodecaster_usb::parser::common::{decode_field_value, parse_field_value, parse_null_terminated_string, FieldValue};
use rodecaster_usb::parser::single_field_update::parse_single_field_update;
use rodecaster_usb::parser::status_report::{decode_struct_component, parse_struct_component};
use rodecaster_usb::parser::{parse_rodecaster_packet, RodeCasterPacket};
use rodecaster_usb::protocol::types::composite::Composite;
use rodecaster_usb::protocol::Parseable;

#[test]
fn test_parse_null_terminated_string() {
    let data = vec![b'H', b'e', b'l', b'l', b'o', b' ', b'W', b'o', b'r', b'l', b'd', 0x00];

    let (remaining, parsed) = parse_null_terminated_string(&data[..]).unwrap();
    assert_eq!(remaining, &[]);
    assert_eq!(parsed, "Hello World".to_string());
}

#[test]
fn test_parse_field_value() {
    let data = vec![
        0x01, // reserved
        0x05, // 5 data bytes
        0x01, // u32
        0x10, 0x00, 0x00, 0x00, // 16 u32 (LE)
    ];

    let (remaining, parsed) = parse_field_value(&data).unwrap();
    assert_eq!(remaining, &[]);
    assert_eq!(parsed, FieldValue::U32(16));
}

#[test]
fn field_value_with_wrong_declared_length_is_refused() {
    let data = [0x01, 0x04, 0x01, 0x10, 0x00, 0x00, 0x00];
    assert_eq!(parse_field_value(&data).unwrap_err(), ParseError::Verify);
}

#[test]
fn field_value_with_unknown_type_aborts() {
    assert!(matches!(decode_field_value(&[0x01, 0x01, 0x09]), Decoded::Aborts));
}

#[test]
fn field_value_struct_holds_its_elements() {
    // a struct of declared length 1 + 3 + 3: two booleans
    let data = [0x01, 0x07, 0x08, 0x01, 0x01, 0x02, 0x01, 0x01, 0x03, 0xEE];
    let (rest, v) = parse_field_value(&data).unwrap();
    assert_eq!(v, FieldValue::Struct(vec![FieldValue::True, FieldValue::False]));
    assert_eq!(rest, &[0xEE]);
}

fn component_bytes() -> Vec<u8> {
    let mut b = Vec::new();
    b.extend_from_slice(b"ROOT\0");
    b.extend_from_slice(&[0x00, 0x01, 0x03]); // collection, u8 count, 3 children
    b.extend_from_slice(b"A\0");
    b.extend_from_slice(&[0x01, 0x01]); // entity, one property
    b.extend_from_slice(b"x\0");
    b.extend_from_slice(&[0x01, 0x05, 0x01, 0x07, 0x00, 0x00, 0x00]);
    b.push(0x00); // end of the component
    b.extend_from_slice(b"B\0");
    b.extend_from_slice(&[0x01, 0x00, 0x00]);
    b.extend_from_slice(b"A\0");
    b.extend_from_slice(&[0x01, 0x00, 0x00]);
    b
}

#[test]
fn struct_component_groups_children_by_name() {
    let data = component_bytes();
    let (rest, c) = parse_struct_component(&data).unwrap();
    assert_eq!(rest.len(), 0);
    assert_eq!(c.name, "ROOT");
    assert_eq!(c.children.len(), 2);
    assert_eq!(c.children[0].0, "A");
    assert_eq!(c.children[0].1.len(), 2);
    assert_eq!(c.children[1].0, "B");
    assert_eq!(c.children[1].1.len(), 1);
    let first_a = &c.children[0].1[0];
    assert_eq!(first_a.properties.get(&"x".to_string()), Some(&FieldValue::U32(7)));
}

#[test]
fn struct_component_with_unknown_kind_aborts() {
    assert!(matches!(decode_struct_component(b"N\0\x07"), Decoded::Aborts));
}

#[test]
fn struct_component_cut_short_is_incomplete() {
    let data = component_bytes();
    assert_eq!(parse_struct_component(&data[..data.len() - 1]).unwrap_err(), ParseError::Incomplete);
}

#[test]
fn single_field_update_is_decoded() {
    let mut data = vec![0x01, 0x02, 0x01, 0x04, 0x00];
    data.extend_from_slice(b"mute\0");
    data.extend_from_slice(&[0x01, 0x01, 0x02]);
    let (rest, u) = parse_single_field_update(&data).unwrap();
    assert_eq!(rest.len(), 0);
    assert_eq!(u.indices, vec![4, 0]);
    assert_eq!(u.field_name, "mute");
    assert_eq!(u.field_value, FieldValue::True);
}

#[test]
fn single_field_update_with_bad_index_width_is_refused() {
    let data = [0x01, 0x01, 0x03, 0x00];
    assert_eq!(parse_single_field_update(&data).unwrap_err(), ParseError::Verify);
}

#[test]
fn rodecaster_packet_kinds() {
    let mut update = vec![0x01, 0x01, 0x01, 0x01, 0x02];
    update.extend_from_slice(b"f\0");
    update.extend_from_slice(&[0x01, 0x01, 0x03]);
    match parse_rodecaster_packet(&update).unwrap().1 {
        RodeCasterPacket::SingleFieldUpdate(u) => {
            assert_eq!(u.indices, vec![2]);
            assert_eq!(u.field_value, FieldValue::False);
        }
        other => panic!("unexpected packet {:?}", other),
    }
    let mut report = vec![0x02];
    report.extend_from_slice(&component_bytes());
    match parse_rodecaster_packet(&report).unwrap().1 {
        RodeCasterPacket::StatusReport(c) => assert_eq!(c.name, "ROOT"),
        other => panic!("unexpected packet {:?}", other),
    }
    assert_eq!(parse_rodecaster_packet(&[0x07]).unwrap_err(), ParseError::Verify);
    assert_eq!(parse_rodecaster_packet(&[]).unwrap_err(), ParseError::Incomplete);
}

#[test]
fn both_state_decoders_read_a_report_alike() {
    let data = component_bytes();
    let (r1, s) = parse_struct_component(&data).unwrap();
    let (r2, c) = Composite::parse(&data).unwrap();
    assert_eq!(r1, r2);
    assert_eq!(&s.name, c.get_name());
    let total: usize = s.children.iter().map(|g| g.1.len()).sum();
    assert_eq!(total, c.children.len());
    assert_eq!(c.children[0].properties.len(), s.children[0].1[0].properties.len());
}
