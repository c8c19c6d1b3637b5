use rodecaster_usb::error::{ParseError, UsbError, WriteError};
use rodecaster_usb::protocol::types::c_string::{parse_c_string, write_c_string};
use rodecaster_usb::protocol::types::composite::{Composite, CompositeType, PatchError};
use rodecaster_usb::protocol::types::value::Value;
use rodecaster_usb::protocol::Parseable;

const VALID_BYTES: [u8; 6] = [72u8, 101u8, 108u8, 108u8, 111u8, 0u8]; // "Hello\0"
const INVALID_BYTES: [u8; 0] = [];

#[test]
fn test_can_parse_empty_string() {
    let result = String::can_parse(&INVALID_BYTES);
    assert_eq!(result, false);
}

#[test]
fn test_can_parse_string() {
    let result = String::can_parse(&VALID_BYTES);
    assert_eq!(result, true);
}

#[test]
fn string_test_parse_string() {
    let result = String::parse(&VALID_BYTES);
    assert!(result.is_ok());

    let (remaining, parsed_string) = result.unwrap();
    assert_eq!(parsed_string, "Hello");
    assert_eq!(remaining.len(), 0);
}

#[test]
fn test_parse_empty_string_err() {
    let data = [];

    let result = String::parse(&data);
    assert!(result.is_err());
}

#[test]
fn test_serialize() {
    let input = "Hello".to_string();
    let expected = [72u8, 101u8, 108u8, 108u8, 111u8, 0u8];

    let mut stream = Vec::new();
    let result = write_c_string(&mut stream, &input);
    assert!(result.is_ok());

    assert_eq!(stream, expected);
}

#[test]
fn c_string_without_terminator_is_incomplete() {
    assert_eq!(parse_c_string(b"abc").unwrap_err(), ParseError::Incomplete);
}

#[test]
fn c_string_stops_at_first_nul() {
    let (rest, s) = parse_c_string(b"ab\0cd\0").unwrap();
    assert_eq!(s, "ab");
    assert_eq!(rest, b"cd\0");
}

#[test]
fn c_string_decodes_invalid_utf8_lossily() {
    let (rest, s) = parse_c_string(&[0x61, 0xFF, 0x62, 0x00, 0x07]).unwrap();
    assert_eq!(s, "a\u{FFFD}b");
    assert_eq!(rest, &[0x07]);
}

#[test]
fn c_string_roundtrip() {
    let mut stream = Vec::new();
    write_c_string(&mut stream, &"RØDE".to_string()).unwrap();
    stream.push(0x42);
    let (rest, s) = parse_c_string(&stream).unwrap();
    assert_eq!(s, "RØDE");
    assert_eq!(rest, &[0x42]);
}

// captured values
const CAPTURED_U32: [u8; 7] = [0x01, 0x05, 0x01, 0x03, 0x00, 0x00, 0x00]; // 3
const CAPTURED_U32_PARSED: u32 = 3;

const CAPTURED_BOOL_TRUE: [u8; 0x03] = [0x01, 0x01, 0x02]; // true
const CAPTURED_BOOL_TRUE_PARSED: bool = true;

const CAPTURED_BOOL_FALSE: [u8; 0x03] = [0x01, 0x01, 0x03]; // false
const CAPTURED_BOOL_FALSE_PARSED: bool = false;

const CAPTURED_F64: [u8; 0x0B] = [0x01, 0x09, 0x04, 0x00, 0x00, 0x00, 0x00, 0x00, 0x70, 0xE7, 0x40]; // 48000
const CAPTURED_F64_PARSED: f64 = 48000f64;

const CAPTURED_STRING: [u8; 0x08] = [0x01, 0x06, 0x05, 0x2D, 0x31, 0x7C, 0x30, 0x00]; // "-1|0"
const CAPTURED_STRING_PARSED: &str = "-1|0";

const CAPTURED_ARRAY: [u8; 0x09] = [0x01, 0x07, 0x08, 0x01, 0x01, 0x02, 0x01, 0x01, 0x02]; // [true, true]
const CAPTURED_ARRAY_PARSED: [bool; 2] = [true, true];

#[test]
fn test_parse_u32() {
    let result = Value::parse(&CAPTURED_U32);
    assert!(result.is_ok());

    let (rest, value) = result.unwrap();
    assert_eq!(rest.len(), 0);
    assert_eq!(value, Value::U32(CAPTURED_U32_PARSED));
}

#[test]
fn test_serialize_u32() {
    let mut stream = Vec::new();
    let result = Value::U32(CAPTURED_U32_PARSED).write_to(&mut stream);
    assert!(result.is_ok());
    assert_eq!(stream, CAPTURED_U32);
}

#[test]
fn test_parse_bool_true() {
    let result = Value::parse(&CAPTURED_BOOL_TRUE);
    assert!(result.is_ok());

    let (rest, value) = result.unwrap();
    assert_eq!(rest.len(), 0);
    assert_eq!(value, Value::Bool(CAPTURED_BOOL_TRUE_PARSED));
}

#[test]
fn test_serialize_bool_true() {
    let mut stream = Vec::new();
    let result = Value::Bool(CAPTURED_BOOL_TRUE_PARSED).write_to(&mut stream);
    assert!(result.is_ok());
    assert_eq!(stream, CAPTURED_BOOL_TRUE);
}

#[test]
fn test_parse_bool_false() {
    let result = Value::parse(&CAPTURED_BOOL_FALSE);
    assert!(result.is_ok());

    let (rest, value) = result.unwrap();
    assert_eq!(rest.len(), 0);
    assert_eq!(value, Value::Bool(CAPTURED_BOOL_FALSE_PARSED));
}

#[test]
fn test_serialize_bool_false() {
    let mut stream = Vec::new();
    let result = Value::Bool(CAPTURED_BOOL_FALSE_PARSED).write_to(&mut stream);
    assert!(result.is_ok());
    assert_eq!(stream, CAPTURED_BOOL_FALSE);
}

#[test]
fn test_parse_f64() {
    let result = Value::parse(&CAPTURED_F64);
    assert!(result.is_ok());

    let (rest, value) = result.unwrap();
    assert_eq!(rest.len(), 0);
    assert_eq!(value, Value::F64(CAPTURED_F64_PARSED.to_bits()));
}

#[test]
fn test_serialize_f64() {
    let mut stream = Vec::new();
    let result = Value::F64(CAPTURED_F64_PARSED.to_bits()).write_to(&mut stream);
    assert!(result.is_ok());
    assert_eq!(stream, CAPTURED_F64);
}

#[test]
fn value_test_parse_string() {
    let result = Value::parse(&CAPTURED_STRING);
    assert!(result.is_ok());

    let (rest, value) = result.unwrap();
    assert_eq!(rest.len(), 0);
    assert_eq!(value, Value::String(CAPTURED_STRING_PARSED.to_string()));
}

#[test]
fn test_serialize_string() {
    let mut stream = Vec::new();
    let result = Value::String(CAPTURED_STRING_PARSED.to_string()).write_to(&mut stream);
    assert!(result.is_ok());
    assert_eq!(stream, CAPTURED_STRING);
}

#[test]
fn test_parse_array() {
    let result = Value::parse(&CAPTURED_ARRAY);
    assert!(result.is_ok());

    let (rest, value) = result.unwrap();
    assert_eq!(rest.len(), 0);
    assert_eq!(value, Value::Array(CAPTURED_ARRAY_PARSED.to_vec().iter().map(|b| Value::Bool(*b)).collect()));
}

#[test]
fn test_serialize_array() {
    let mut stream = Vec::new();
    let result = Value::Array(CAPTURED_ARRAY_PARSED.to_vec().iter().map(|b| Value::Bool(*b)).collect()).write_to(&mut stream);
    assert!(result.is_ok());
    assert_eq!(stream, CAPTURED_ARRAY);
}

#[test]
fn value_roundtrip_keeps_remaining_input() {
    let values = vec![
        Value::U32(0xDEADBEEF),
        Value::Bool(false),
        Value::F64((-2.5f64).to_bits()),
        Value::String("channel 1".to_string()),
        Value::Array(vec![Value::U32(7), Value::String("x".to_string())]),
    ];
    for v in values {
        let mut stream = Vec::new();
        v.write_to(&mut stream).unwrap();
        stream.extend_from_slice(&[0xAA, 0xBB]);
        let (rest, parsed) = Value::parse(&stream).unwrap();
        assert_eq!(parsed, v);
        assert_eq!(rest, &[0xAA, 0xBB]);
    }
}

#[test]
fn value_with_unknown_type_is_refused() {
    assert_eq!(Value::parse(&[0x01, 0x01, 0x09]).unwrap_err(), ParseError::Fail);
}

#[test]
fn value_cut_short_is_incomplete() {
    assert_eq!(Value::parse(&[0x01, 0x05, 0x01, 0x03]).unwrap_err(), ParseError::Incomplete);
}

#[test]
fn value_too_long_is_not_written() {
    let mut stream = vec![0x55];
    let long = "a".repeat(70_000);
    let result = Value::String(long).write_to(&mut stream);
    assert_eq!(result, Err(WriteError::ValueTooLong));
    assert_eq!(stream, vec![0x55]);
}

const CAPTURED_COMPOSITE_WITH_CHILDREN: [u8; 0x1F2] = [
    0x52, 0x41, 0x44, 0x49, 0x4F, 0x00, 0x01, 0x03, 0x72, 0x61, 0x64, 0x69, 0x6F, 0x50, 0x61, 0x69,
    0x72, 0x00, 0x01, 0x05, 0x01, 0xFF, 0xFF, 0xFF, 0xFF, 0x72, 0x61, 0x64, 0x69, 0x6F, 0x50, 0x61,
    0x69, 0x72, 0x65, 0x64, 0x00, 0x01, 0x05, 0x01, 0x00, 0x00, 0x00, 0x00, 0x72, 0x61, 0x64, 0x69,
    0x6F, 0x55, 0x6E, 0x70, 0x61, 0x69, 0x72, 0x00, 0x01, 0x02, 0x05, 0x00, 0x01, 0x02, 0x52, 0x41,
    0x44, 0x49, 0x4F, 0x54, 0x58, 0x00, 0x01, 0x0C, 0x74, 0x78, 0x43, 0x6F, 0x6E, 0x6E, 0x65, 0x63,
    0x74, 0x69, 0x6F, 0x6E, 0x49, 0x64, 0x00, 0x01, 0x05, 0x01, 0x00, 0x00, 0x00, 0x00, 0x74, 0x78,
    0x44, 0x65, 0x76, 0x69, 0x63, 0x65, 0x53, 0x4E, 0x00, 0x01, 0x02, 0x05, 0x00, 0x74, 0x78, 0x44,
    0x65, 0x76, 0x69, 0x63, 0x65, 0x54, 0x79, 0x70, 0x65, 0x00, 0x01, 0x05, 0x01, 0xFF, 0xFF, 0xFF,
    0xFF, 0x74, 0x78, 0x43, 0x6F, 0x6E, 0x6E, 0x65, 0x63, 0x74, 0x65, 0x64, 0x00, 0x01, 0x01, 0x03,
    0x74, 0x78, 0x52, 0x73, 0x73, 0x69, 0x00, 0x01, 0x05, 0x01, 0x00, 0x00, 0x00, 0x00, 0x74, 0x78,
    0x53, 0x69, 0x67, 0x6E, 0x61, 0x6C, 0x51, 0x75, 0x61, 0x6C, 0x69, 0x74, 0x79, 0x00, 0x01, 0x05,
    0x01, 0x00, 0x00, 0x00, 0x00, 0x74, 0x78, 0x42, 0x61, 0x74, 0x74, 0x65, 0x72, 0x79, 0x4C, 0x65,
    0x76, 0x65, 0x6C, 0x00, 0x01, 0x05, 0x01, 0x00, 0x00, 0x00, 0x00, 0x74, 0x78, 0x43, 0x68, 0x61,
    0x72, 0x67, 0x69, 0x6E, 0x67, 0x53, 0x74, 0x61, 0x74, 0x65, 0x00, 0x01, 0x01, 0x03, 0x74, 0x78,
    0x52, 0x65, 0x63, 0x6F, 0x72, 0x64, 0x00, 0x01, 0x01, 0x03, 0x74, 0x78, 0x52, 0x65, 0x6D, 0x6F,
    0x74, 0x65, 0x4D, 0x75, 0x74, 0x65, 0x00, 0x01, 0x01, 0x03, 0x74, 0x78, 0x47, 0x61, 0x69, 0x6E,
    0x41, 0x73, 0x73, 0x69, 0x73, 0x74, 0x00, 0x01, 0x05, 0x01, 0x02, 0x00, 0x00, 0x00, 0x74, 0x78,
    0x50, 0x61, 0x64, 0x00, 0x01, 0x01, 0x03, 0x00, 0x52, 0x41, 0x44, 0x49, 0x4F, 0x54, 0x58, 0x00,
    0x01, 0x0C, 0x74, 0x78, 0x43, 0x6F, 0x6E, 0x6E, 0x65, 0x63, 0x74, 0x69, 0x6F, 0x6E, 0x49, 0x64,
    0x00, 0x01, 0x05, 0x01, 0x01, 0x00, 0x00, 0x00, 0x74, 0x78, 0x44, 0x65, 0x76, 0x69, 0x63, 0x65,
    0x53, 0x4E, 0x00, 0x01, 0x02, 0x05, 0x00, 0x74, 0x78, 0x44, 0x65, 0x76, 0x69, 0x63, 0x65, 0x54,
    0x79, 0x70, 0x65, 0x00, 0x01, 0x05, 0x01, 0xFF, 0xFF, 0xFF, 0xFF, 0x74, 0x78, 0x43, 0x6F, 0x6E,
    0x6E, 0x65, 0x63, 0x74, 0x65, 0x64, 0x00, 0x01, 0x01, 0x03, 0x74, 0x78, 0x52, 0x73, 0x73, 0x69,
    0x00, 0x01, 0x05, 0x01, 0x00, 0x00, 0x00, 0x00, 0x74, 0x78, 0x53, 0x69, 0x67, 0x6E, 0x61, 0x6C,
    0x51, 0x75, 0x61, 0x6C, 0x69, 0x74, 0x79, 0x00, 0x01, 0x05, 0x01, 0x00, 0x00, 0x00, 0x00, 0x74,
    0x78, 0x42, 0x61, 0x74, 0x74, 0x65, 0x72, 0x79, 0x4C, 0x65, 0x76, 0x65, 0x6C, 0x00, 0x01, 0x05,
    0x01, 0x00, 0x00, 0x00, 0x00, 0x74, 0x78, 0x43, 0x68, 0x61, 0x72, 0x67, 0x69, 0x6E, 0x67, 0x53,
    0x74, 0x61, 0x74, 0x65, 0x00, 0x01, 0x01, 0x03, 0x74, 0x78, 0x52, 0x65, 0x63, 0x6F, 0x72, 0x64,
    0x00, 0x01, 0x01, 0x03, 0x74, 0x78, 0x52, 0x65, 0x6D, 0x6F, 0x74, 0x65, 0x4D, 0x75, 0x74, 0x65,
    0x00, 0x01, 0x01, 0x03, 0x74, 0x78, 0x47, 0x61, 0x69, 0x6E, 0x41, 0x73, 0x73, 0x69, 0x73, 0x74,
    0x00, 0x01, 0x05, 0x01, 0x02, 0x00, 0x00, 0x00, 0x74, 0x78, 0x50, 0x61, 0x64, 0x00, 0x01, 0x01,
    0x03, 0x00,
];

#[test]
fn test_parse_composite() {
    let expected_name = "RADIO";
    let expected_property_names = ["radioPair", "radioPaired", "radioUnpair"];
    let expected_child_names = ["RADIOTX", "RADIORX"];

    let result = Composite::parse(&CAPTURED_COMPOSITE_WITH_CHILDREN);
    assert!(result.is_ok());

    let (rest, composite) = result.unwrap();
    assert_eq!(rest.len(), 0); // all bytes should be consumed
    assert_eq!(composite.name, expected_name);
    assert_eq!(composite.composite_type, CompositeType::Object);
    assert_eq!(composite.has_children, true);

    assert_eq!(composite.properties.len(), expected_property_names.len());
    for property_name in &expected_property_names {
        assert!(composite.properties.get(&property_name.to_string()).is_some());
    }

    assert_eq!(composite.children.len(), expected_child_names.len());
}

#[test]
fn default_composite_is_an_empty_object() {
    let c = Composite::default();
    assert_eq!(c.name, "");
    assert_eq!(c.composite_type, CompositeType::Object);
    assert!(!c.has_children);
    assert_eq!(c.properties.len(), 0);
    assert!(c.children.is_empty());
}

#[test]
fn value_with_unknown_length_width_is_refused() {
    assert_eq!(Value::parse(&[0x03, 0x01, 0x02]).unwrap_err(), ParseError::LengthValue);
}

fn patch_target() -> Composite {
    let mut child = Composite::default();
    child.name = "CHANNEL".to_string();
    child.properties.insert("mute".to_string(), Value::Bool(false));
    let mut root = Composite::default();
    root.name = "ROOT".to_string();
    root.has_children = true;
    root.children.push(child);
    root
}

#[test]
fn patch_reaches_nested_property() {
    let mut root = patch_target();
    root.apply_patch(vec![0], "mute".to_string(), Value::Bool(true)).unwrap();
    assert_eq!(root.children[0].properties.get(&"mute".to_string()), Some(&Value::Bool(true)));
}

#[test]
fn refused_patches_leave_the_tree_unchanged() {
    let mut root = patch_target();
    match root.apply_patch(vec![0], "mute".to_string(), Value::U32(1)) {
        Err(UsbError::PropertyError(PatchError::TypeMismatch { property })) => assert_eq!(property, "mute"),
        other => panic!("unexpected result {:?}", other),
    }
    match root.apply_patch(vec![0], "solo".to_string(), Value::Bool(true)) {
        Err(UsbError::PropertyError(PatchError::UnknownProperty { property, composite })) => {
            assert_eq!(property, "solo");
            assert_eq!(composite, "CHANNEL");
        }
        other => panic!("unexpected result {:?}", other),
    }
    match root.apply_patch(vec![3], "mute".to_string(), Value::Bool(true)) {
        Err(UsbError::PropertyError(PatchError::ChildIndexOutOfBounds { composite, index })) => {
            assert_eq!(composite, "ROOT");
            assert_eq!(index, 3);
        }
        other => panic!("unexpected result {:?}", other),
    }
    assert_eq!(root.children[0].properties.get(&"mute".to_string()), Some(&Value::Bool(false)));
}

#[test]
fn long_string_value_uses_a_two_byte_length() {
    let text = "x".repeat(300);
    let mut stream = Vec::new();
    Value::String(text.clone()).write_to(&mut stream).unwrap();
    // 300 characters, the terminator and the type byte: 302 = 0x012E
    assert_eq!(&stream[..4], &[0x02, 0x2E, 0x01, 0x05]);
    assert_eq!(stream.len(), 4 + 301);
    let (rest, v) = Value::parse(&stream).unwrap();
    assert_eq!(rest.len(), 0);
    assert_eq!(v, Value::String(text));
}
