use ullam::format::{
    decode_value, decode_values, extract_timestamp, field_size, field_type, fixed_string,
    parsed_fields, payload_size, timestamp_type, FieldType, FormatField, LogFormat, ParseError,
    RawValue,
};
use ullam::message::{ArduPilotMessage, DefaultArduPilotMessage};
use ullam::time::Duration;

fn ff(name: &str, ty: FieldType) -> FormatField {
    FormatField { name: name.to_string(), ty }
}

#[test]
fn field_type_maps_codes() {
    assert!(matches!(field_type('b', None), Ok(FieldType::I8)));
    assert!(matches!(field_type('B', None), Ok(FieldType::U8)));
    assert!(matches!(field_type('Q', Some("TimeUS")), Ok(FieldType::U64)));
    assert!(matches!(field_type('f', None), Ok(FieldType::F32)));
    assert!(matches!(field_type('d', None), Ok(FieldType::F64)));
    assert!(matches!(field_type('M', None), Ok(FieldType::FlightMode)));
    assert!(matches!(field_type('c', None), Ok(FieldType::ScaledI16(100))));
    assert!(matches!(field_type('E', None), Ok(FieldType::ScaledI32(100))));
    assert!(matches!(field_type('n', None), Ok(FieldType::String(4))));
    assert!(matches!(field_type('N', None), Ok(FieldType::String(16))));
    assert!(matches!(field_type('Z', None), Ok(FieldType::String(64))));
}

#[test]
fn field_type_l_depends_on_label() {
    assert!(matches!(field_type('L', Some("Lat")), Ok(FieldType::Latitude)));
    assert!(matches!(field_type('L', Some("Latitude")), Ok(FieldType::Latitude)));
    assert!(matches!(field_type('L', Some("Lng")), Ok(FieldType::Longitude)));
    assert!(matches!(field_type('L', Some("Lon")), Ok(FieldType::Longitude)));
    assert!(matches!(field_type('L', Some("Longitude")), Ok(FieldType::Longitude)));
    assert!(matches!(field_type('L', Some("Alt")), Ok(FieldType::I32)));
    assert!(matches!(field_type('L', None), Ok(FieldType::I32)));
}

#[test]
fn field_type_rejects_unknown_code() {
    match field_type('x', None) {
        Err(ParseError::InvalidFormat { message, format }) => {
            assert_eq!(message, "");
            assert_eq!(format, "x");
        }
        _ => panic!("expected InvalidFormat"),
    }
}

#[test]
fn timestamp_type_cases() {
    let zero = |d: Option<Duration>| d.map(|d| d.as_nanos());
    assert_eq!(zero(timestamp_type("QBB", &[])), Some(0));
    assert_eq!(zero(timestamp_type("IB", &["TimeUS".to_string()])), Some(0));
    assert_eq!(zero(timestamp_type("IB", &["TimeMS".to_string()])), Some(0));
    assert_eq!(zero(timestamp_type("IB", &["Other".to_string()])), None);
    assert_eq!(zero(timestamp_type("IB", &[])), None);
    assert_eq!(zero(timestamp_type("BQ", &[])), None);
    assert_eq!(zero(timestamp_type("", &[])), None);
}

#[test]
fn field_sizes() {
    assert_eq!(field_size(&FieldType::I8), 1);
    assert_eq!(field_size(&FieldType::FlightMode), 1);
    assert_eq!(field_size(&FieldType::ScaledI16(100)), 2);
    assert_eq!(field_size(&FieldType::Latitude), 4);
    assert_eq!(field_size(&FieldType::F64), 8);
    assert_eq!(field_size(&FieldType::String(16)), 16);
    let fields = vec![ff("a", FieldType::U64), ff("b", FieldType::I16), ff("c", FieldType::String(4))];
    assert_eq!(payload_size(&fields), 14);
    assert_eq!(payload_size(&[]), 0);
}

#[test]
fn decode_value_integers_are_little_endian() {
    assert!(matches!(decode_value(&FieldType::I8, &[0xff]), RawValue::I8(-1)));
    assert!(matches!(decode_value(&FieldType::U8, &[0xff]), RawValue::U8(255)));
    assert!(matches!(decode_value(&FieldType::I16, &[0x00, 0x80]), RawValue::I16(-32768)));
    assert!(matches!(decode_value(&FieldType::U16, &[0x34, 0x12]), RawValue::U16(0x1234)));
    assert!(matches!(decode_value(&FieldType::I32, &[0xfe, 0xff, 0xff, 0xff]), RawValue::I32(-2)));
    assert!(matches!(decode_value(&FieldType::U32, &[1, 2, 3, 4]), RawValue::U32(0x0403_0201)));
    assert!(matches!(
        decode_value(&FieldType::I64, &[0xff; 8]),
        RawValue::I64(-1)
    ));
    assert!(matches!(
        decode_value(&FieldType::U64, &[1, 0, 0, 0, 0, 0, 0, 0x80]),
        RawValue::U64(0x8000_0000_0000_0001)
    ));
    assert!(matches!(
        decode_value(&FieldType::Latitude, &[0x80, 0x96, 0x98, 0x00]),
        RawValue::Latitude(10_000_000)
    ));
    assert!(matches!(decode_value(&FieldType::FlightMode, &[5]), RawValue::FlightMode(5)));
}

#[test]
fn decode_value_floats_keep_their_bits() {
    let v = decode_value(&FieldType::F32, &1.5f32.to_le_bytes());
    assert!(matches!(v, RawValue::F32(b) if b == 1.5f32.to_bits()));
    let v = decode_value(&FieldType::F64, &(-2.25f64).to_le_bytes());
    assert!(matches!(v, RawValue::F64(b) if b == (-2.25f64).to_bits()));
}

#[test]
fn decode_value_scaled_keeps_raw_and_scale() {
    let v = decode_value(&FieldType::ScaledI16(100), &[0x10, 0x27]);
    assert!(matches!(v, RawValue::Scaled { raw: 10000, scale: 100 }));
    let v = decode_value(&FieldType::ScaledI32(100), &[0xff, 0xff, 0xff, 0xff]);
    assert!(matches!(v, RawValue::Scaled { raw: -1, scale: 100 }));
}

#[test]
fn decode_value_text_stops_at_nul_and_trims() {
    match decode_value(&FieldType::String(8), b"AB\0CDEFG") {
        RawValue::String(s) => assert_eq!(s, "AB"),
        _ => panic!("expected text"),
    }
    match decode_value(&FieldType::String(6), b"ab \t  ") {
        RawValue::String(s) => assert_eq!(s, "ab"),
        _ => panic!("expected text"),
    }
}

#[test]
fn fixed_string_edge_cases() {
    assert_eq!(fixed_string(b""), "");
    assert_eq!(fixed_string(b"\0abc"), "");
    assert_eq!(fixed_string(b"  x  \0 y"), "  x");
    assert_eq!(fixed_string(b"NTUN"), "NTUN");
    assert_eq!(fixed_string(&[0x61, 0xff, 0x62]), "a\u{fffd}b");
    assert_eq!(fixed_string("é \n".as_bytes()), "é");
}

#[test]
fn decode_values_reads_fields_in_order() {
    let fields = vec![ff("TimeUS", FieldType::U64), ff("Roll", FieldType::I16), ff("Name", FieldType::String(4))];
    let mut payload = vec![];
    payload.extend_from_slice(&1234u64.to_le_bytes());
    payload.extend_from_slice(&(-5i16).to_le_bytes());
    payload.extend_from_slice(b"ATT\0");
    payload.push(99);
    let values = decode_values(&fields, &payload).ok().expect("long enough");
    assert_eq!(values.len(), 3);
    assert!(matches!(values[0], RawValue::U64(1234)));
    assert!(matches!(values[1], RawValue::I16(-5)));
    assert!(matches!(&values[2], RawValue::String(s) if s == "ATT"));
}

#[test]
fn decode_values_reports_short_payload() {
    let fields = vec![ff("a", FieldType::U32), ff("b", FieldType::U32)];
    assert!(matches!(decode_values(&fields, &[0; 7]), Err(ParseError::UnexpectedEof)));
    assert!(decode_values(&fields, &[0; 8]).is_ok());
    assert!(matches!(decode_values(&[], &[]), Ok(v) if v.is_empty()));
}

#[test]
fn parsed_fields_pairs_up_to_shorter() {
    let fields = vec![ff("a", FieldType::U8), ff("b", FieldType::U8), ff("c", FieldType::U8)];
    let values = vec![RawValue::U8(1), RawValue::U8(2)];
    let res = parsed_fields(&fields, &values);
    assert_eq!(res.len(), 2);
    assert_eq!(res[0].name, "a");
    assert!(matches!(res[1].value, RawValue::U8(2)));
}

#[test]
fn extract_timestamp_micros_and_millis() {
    let us = LogFormat {
        id: 1,
        name: "ATT".to_string(),
        timestamp: Some(Duration::zero()),
        fields: vec![ff("TimeUS", FieldType::U64)],
    };
    let d = extract_timestamp(&us, &1_500u64.to_le_bytes()).expect("timestamp");
    assert_eq!(d.as_nanos(), 1_500_000);
    let ms = LogFormat {
        id: 2,
        name: "OLD".to_string(),
        timestamp: Some(Duration::zero()),
        fields: vec![ff("TimeMS", FieldType::U32)],
    };
    let d = extract_timestamp(&ms, &[7, 0, 0, 0]).expect("timestamp");
    assert_eq!(d.as_nanos(), 7_000_000);
    let none = LogFormat { id: 3, name: "PARM".to_string(), timestamp: None, fields: vec![] };
    assert!(extract_timestamp(&none, &[]).is_none());
}

#[test]
fn default_message_format_names_and_types() {
    let labels = vec!["TimeUS".to_string(), "Lat".to_string()];
    let f = DefaultArduPilotMessage.format(7, "GPS", "QLB", &labels).ok().expect("valid");
    assert_eq!(f.id, 7);
    assert_eq!(f.name, "GPS");
    assert!(f.timestamp.is_some());
    assert_eq!(f.fields.len(), 3);
    assert_eq!(f.fields[0].name, "TimeUS");
    assert!(f.fields[0].ty == FieldType::U64);
    assert_eq!(f.fields[1].name, "Lat");
    assert!(f.fields[1].ty == FieldType::Latitude);
    assert_eq!(f.fields[2].name, "field_2");
    assert!(f.fields[2].ty == FieldType::U8);
}

#[test]
fn default_message_format_placeholder_names_count_up() {
    let f = DefaultArduPilotMessage.format(1, "X", "BBBBBBBBBBBB", &[]).ok().expect("valid");
    assert!(f.timestamp.is_none());
    assert_eq!(f.fields[0].name, "field_0");
    assert_eq!(f.fields[11].name, "field_11");
}

#[test]
fn default_message_format_rejects_unknown_code() {
    match DefaultArduPilotMessage.format(1, "X", "Bx?", &[]) {
        Err(ParseError::InvalidFormat { format, .. }) => assert_eq!(format, "x"),
        _ => panic!("expected InvalidFormat"),
    }
}

#[test]
fn payload_size_adds_up() {
    let a = vec![ff("A", FieldType::U64), ff("B", FieldType::F32)];
    let b = vec![ff("C", FieldType::String(16))];
    let both = vec![ff("A", FieldType::U64), ff("B", FieldType::F32), ff("C", FieldType::String(16))];
    assert_eq!(payload_size(&[]), 0);
    assert_eq!(payload_size(&both), payload_size(&a) + payload_size(&b));
    assert_eq!(payload_size(&both), 28);
}
