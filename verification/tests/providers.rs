use ullam::format::ParseError;
use ullam::providers::{
    default_parse, format_entry, rc_channel, select_provider, CommonSchemaProvider,
    ControlSchemaProvider, EkfSchemaProvider, FormattedValue, GpsSchemaProvider, ImuSchemaProvider,
    MessageSchemaProvider, Provider, RawEntry, RcSchemaProvider,
};
use ullam::value::{FieldValue, LogValue};

fn exact(r: Result<ullam::providers::FormattedField, ParseError>) -> LogValue {
    match r {
        Ok(f) => match f.value {
            FormattedValue::Exact(v) => v,
            _ => panic!("expected an exact value"),
        },
        Err(_) => panic!("expected a value"),
    }
}

fn rejected(r: Result<ullam::providers::FormattedField, ParseError>, label: &str) -> bool {
    matches!(r, Err(ParseError::InvalidLabelType { label: l, .. }) if l == label)
}

#[test]
fn providers_handle_their_messages() {
    assert!(ImuSchemaProvider.handles_message("IMU"));
    assert!(!ImuSchemaProvider.handles_message("IMU2"));
    assert!(EkfSchemaProvider.handles_message("NKF1"));
    assert!(EkfSchemaProvider.handles_message("XKF5"));
    assert!(!EkfSchemaProvider.handles_message("NK"));
    assert!(GpsSchemaProvider.handles_message("GPA"));
    assert!(GpsSchemaProvider.handles_message("GRAW"));
    assert!(!GpsSchemaProvider.handles_message("GPS2"));
    assert!(ControlSchemaProvider.handles_message("PIDR"));
    assert!(ControlSchemaProvider.handles_message("CTUN"));
    assert!(ControlSchemaProvider.handles_message("RATE"));
    assert!(!ControlSchemaProvider.handles_message("ATT"));
    assert!(RcSchemaProvider.handles_message("RCO2"));
    assert!(!RcSchemaProvider.handles_message("RCIN2"));
    assert!(CommonSchemaProvider.handles_message("anything"));
}

#[test]
fn provider_selection_order() {
    assert!(matches!(select_provider("IMU"), Provider::Imu));
    assert!(matches!(select_provider("XKF1"), Provider::Ekf));
    assert!(matches!(select_provider("GPS"), Provider::Gps));
    assert!(matches!(select_provider("PIDP"), Provider::Control));
    assert!(matches!(select_provider("RCIN"), Provider::Rc));
    assert!(matches!(select_provider("BARO"), Provider::Common));
    assert!(matches!(select_provider(""), Provider::Common));
}

#[test]
fn time_fields_need_unsigned_values() {
    let v = exact(ImuSchemaProvider.format_field("TimeUS".to_string(), FieldValue::Uint(42)));
    assert!(matches!(v, LogValue::Time(d) if d.as_nanos() == 42_000));
    assert!(rejected(GpsSchemaProvider.format_field("TimeUS".to_string(), FieldValue::Int(42)), "TimeUS"));
    assert!(rejected(CommonSchemaProvider.format_field("TimeUS".to_string(), FieldValue::Float(0)), "TimeUS"));
}

#[test]
fn default_parse_keeps_kinds() {
    assert!(matches!(default_parse(FieldValue::Int(-3), "Alt"), Ok(FormattedValue::Exact(LogValue::I64(-3)))));
    assert!(matches!(default_parse(FieldValue::Uint(3), "Alt"), Ok(FormattedValue::Exact(LogValue::U64(3)))));
    assert!(matches!(default_parse(FieldValue::Float(7), "Alt"), Ok(FormattedValue::Exact(LogValue::F64(7)))));
    assert!(matches!(
        default_parse(FieldValue::String("hi".to_string()), "Msg"),
        Ok(FormattedValue::Exact(LogValue::String(s))) if s == "hi"
    ));
    assert!(matches!(
        default_parse(FieldValue::Array(vec![1, -1]), "Data"),
        Ok(FormattedValue::Exact(LogValue::Array(a))) if a == vec![1, -1]
    ));
    assert!(matches!(default_parse(FieldValue::Int(2), "I"), Ok(FormattedValue::Exact(LogValue::I64(2)))));
    match default_parse(FieldValue::Float(1), "I") {
        Err(ParseError::InvalidLabelType { label, value: FieldValue::Float(1) }) => assert_eq!(label, "I"),
        _ => panic!("expected InvalidLabelType"),
    }
}

#[test]
fn control_fields() {
    let p = ControlSchemaProvider;
    assert!(matches!(exact(p.format_field("P".to_string(), FieldValue::Float(5))), LogValue::F64(5)));
    assert!(matches!(
        p.format_field("Tar".to_string(), FieldValue::Int(3)),
        Ok(f) if matches!(f.value, FormattedValue::IntAsFloat(3))
    ));
    assert!(rejected(p.format_field("Yaw".to_string(), FieldValue::Uint(3)), "Yaw"));
    assert!(matches!(exact(p.format_field("Flags".to_string(), FieldValue::Int(-1))), LogValue::U64(u64::MAX)));
    assert!(matches!(exact(p.format_field("SRate".to_string(), FieldValue::Float(9))), LogValue::F64(9)));
    assert!(rejected(p.format_field("SRate".to_string(), FieldValue::Int(9)), "SRate"));
    assert!(matches!(exact(p.format_field("Other".to_string(), FieldValue::Int(9))), LogValue::I64(9)));
}

#[test]
fn ekf_fields() {
    let p = EkfSchemaProvider;
    assert!(matches!(exact(p.format_field("PN".to_string(), FieldValue::Int(-7))), LogValue::Latitude(-7)));
    assert!(matches!(
        exact(p.format_field("Lng".to_string(), FieldValue::Uint(0x1_0000_0005))),
        LogValue::Longitude(5)
    ));
    assert!(matches!(exact(p.format_field("Lat".to_string(), FieldValue::Float(4))), LogValue::F64(4)));
    assert!(rejected(p.format_field("Lat".to_string(), FieldValue::String("x".to_string())), "Lat"));
    assert!(matches!(
        p.format_field("VN".to_string(), FieldValue::Int(2)),
        Ok(f) if matches!(f.value, FormattedValue::IntAsFloat(2))
    ));
    assert!(matches!(exact(p.format_field("C".to_string(), FieldValue::Uint(3))), LogValue::U64(3)));
}

#[test]
fn gps_fields() {
    let p = GpsSchemaProvider;
    assert!(matches!(
        p.format_field("Lat".to_string(), FieldValue::Int(-123)),
        Ok(f) if f.name == "Lat" && matches!(f.value, FormattedValue::IntDegrees(-123))
    ));
    assert!(matches!(
        p.format_field("Lng".to_string(), FieldValue::Uint(5)),
        Ok(f) if matches!(f.value, FormattedValue::UintDegrees(5))
    ));
    assert!(rejected(p.format_field("Lat".to_string(), FieldValue::Float(5)), "Lat"));
    assert!(matches!(exact(p.format_field("Spd".to_string(), FieldValue::Float(5))), LogValue::F64(5)));
    assert!(matches!(exact(p.format_field("NSats".to_string(), FieldValue::Int(12))), LogValue::U64(12)));
}

#[test]
fn imu_fields() {
    let p = ImuSchemaProvider;
    assert!(matches!(exact(p.format_field("GyrX".to_string(), FieldValue::Float(11))), LogValue::F64(11)));
    assert!(matches!(
        p.format_field("AccZ".to_string(), FieldValue::Uint(3)),
        Ok(f) if matches!(f.value, FormattedValue::UintAsFloat(3))
    ));
    assert!(matches!(exact(p.format_field("I".to_string(), FieldValue::Int(1))), LogValue::U64(1)));
    assert!(rejected(p.format_field("T".to_string(), FieldValue::Array(vec![])), "T"));
}

#[test]
fn rc_channels() {
    assert!(rc_channel("C1"));
    assert!(rc_channel("C32"));
    assert!(rc_channel("C01"));
    assert!(rc_channel("C+5"));
    assert!(!rc_channel("C0"));
    assert!(!rc_channel("C33"));
    assert!(!rc_channel("C"));
    assert!(!rc_channel("C+"));
    assert!(!rc_channel("C-1"));
    assert!(!rc_channel("Cx"));
    assert!(!rc_channel("D1"));
    assert!(!rc_channel("C99999999999"));
    let p = RcSchemaProvider;
    assert!(matches!(exact(p.format_field("C3".to_string(), FieldValue::Uint(1500))), LogValue::U64(1500)));
    assert!(matches!(exact(p.format_field("C3".to_string(), FieldValue::Int(-1))), LogValue::I64(-1)));
    assert!(rejected(p.format_field("C3".to_string(), FieldValue::Float(1)), "C3"));
    assert!(matches!(exact(p.format_field("Flags".to_string(), FieldValue::Float(1))), LogValue::F64(1)));
}

#[test]
fn format_entry_uses_the_message_provider() {
    let raw = RawEntry {
        msg_type: 9,
        name: "GPS".to_string(),
        timestamp_usec: Some(5),
        labels: vec!["TimeUS".to_string(), "Lat".to_string(), "Extra".to_string()],
        values: vec![FieldValue::Uint(5), FieldValue::Int(10)],
    };
    let e = format_entry(raw).ok().expect("valid entry");
    assert_eq!(e.id, 9);
    assert_eq!(e.name, "GPS");
    assert_eq!(e.timestamp.map(|d| d.as_nanos()), Some(5_000));
    assert_eq!(e.fields.len(), 2);
    assert!(matches!(e.fields[1].value, FormattedValue::IntDegrees(10)));
}

#[test]
fn format_entry_stops_at_first_bad_field() {
    let raw = RawEntry {
        msg_type: 1,
        name: "IMU".to_string(),
        timestamp_usec: None,
        labels: vec!["GyrX".to_string(), "T".to_string(), "TimeUS".to_string()],
        values: vec![FieldValue::Float(0), FieldValue::String("x".to_string()), FieldValue::Int(1)],
    };
    match format_entry(raw) {
        Err(ParseError::InvalidLabelType { label, .. }) => assert_eq!(label, "T"),
        _ => panic!("expected InvalidLabelType"),
    }
}
