use vstd::prelude::*;
use vstd::string::*;

use crate::format::ParseError;
use crate::text::{parse_u32, parse_u32_from, starts_with, str_eq};
use crate::time::Duration;
use crate::value::{FieldValue, LogValue};

verus! {

/// A formatted field value. Most values are final; the ones that need a
/// floating-point conversion of an integer are named here and finished by
/// whoever turns them into `f64`s.
pub enum FormattedValue {
    /// The final value.
    Exact(LogValue),
    /// `LogValue::F64(n as f64)`.
    IntAsFloat(i64),
    /// `LogValue::F64(n as f64)`.
    UintAsFloat(u64),
    /// `LogValue::F64(n as f64 / 10_000_000.0)`: degrees from degrees * 10^7.
    IntDegrees(i64),
    /// `LogValue::F64(n as f64 / 10_000_000.0)`: degrees from degrees * 10^7.
    UintDegrees(u64),
}

/// A named formatted field.
pub struct FormattedField {
    pub name: String,
    pub value: FormattedValue,
}

/// Interprets the fields of the messages it handles.
pub trait MessageSchemaProvider {
    /// Whether this provider handles messages of this name (e.g. "IMU", "NKF1").
    fn handles_message(&self, msg_name: &str) -> bool;

    /// Formats one field of a handled message from its label and raw value.
    fn format_field(&self, label: String, value: FieldValue) -> Result<FormattedField, ParseError>;
}

/// `out` is the fallback interpretation of `value` under `label`: `TimeUS`
/// must be unsigned microseconds, `I` an integer, and anything else keeps
/// its kind. `None` stands for a value of the wrong kind.
pub open spec fn default_formats(label: Seq<char>, value: FieldValue, out: Option<FormattedValue>) -> bool {
    if label == "TimeUS"@ {
        time_formats(value, out)
    } else if label == "I"@ {
        match value {
            FieldValue::Int(v) => out == Some(FormattedValue::Exact(LogValue::I64(v))),
            FieldValue::Uint(v) => out == Some(FormattedValue::Exact(LogValue::U64(v))),
            _ => out is None,
        }
    } else {
        match value {
            FieldValue::Int(v) => out == Some(FormattedValue::Exact(LogValue::I64(v))),
            FieldValue::Uint(v) => out == Some(FormattedValue::Exact(LogValue::U64(v))),
            FieldValue::Float(v) => out == Some(FormattedValue::Exact(LogValue::F64(v))),
            FieldValue::String(v) => out == Some(FormattedValue::Exact(LogValue::String(v))),
            FieldValue::Array(v) => out == Some(FormattedValue::Exact(LogValue::Array(v))),
        }
    }
}

/// A `TimeUS` field: unsigned microseconds since boot.
pub open spec fn time_formats(value: FieldValue, out: Option<FormattedValue>) -> bool {
    match value {
        FieldValue::Uint(v) => out matches Some(FormattedValue::Exact(LogValue::Time(d))) && d@ == v * 1000,
        _ => out is None,
    }
}

/// A float-valued field: floats stay, integers convert.
pub open spec fn float_formats(value: FieldValue, out: Option<FormattedValue>) -> bool {
    match value {
        FieldValue::Float(v) => out == Some(FormattedValue::Exact(LogValue::F64(v))),
        FieldValue::Int(v) => out == Some(FormattedValue::IntAsFloat(v)),
        _ => out is None,
    }
}

/// A counter-like field: integers become unsigned (negative ones wrap).
pub open spec fn unsigned_formats(value: FieldValue, out: Option<FormattedValue>) -> bool {
    match value {
        FieldValue::Int(v) => out == Some(FormattedValue::Exact(LogValue::U64(v as u64))),
        FieldValue::Uint(v) => out == Some(FormattedValue::Exact(LogValue::U64(v))),
        _ => out is None,
    }
}

/// The result of formatting as the contract states it: `Ok` with `label`
/// as name when `out` is `Some`, the `InvalidLabelType` error with the
/// label's text and the value otherwise.
pub open spec fn format_result(
    label: String,
    value: FieldValue,
    out: Option<FormattedValue>,
    res: Result<FormattedField, ParseError>,
) -> bool {
    match out {
        Some(o) => res matches Ok(f) && f.name == label && f.value == o,
        None => res matches Err(ParseError::InvalidLabelType { label: l, value: v }) && l@ == label@ && v == value,
    }
}

/// `res` carries `out`: the formatted value, or back the raw value when
/// there is none.
pub open spec fn carries(value: FieldValue, out: Option<FormattedValue>, res: Result<FormattedValue, FieldValue>) -> bool {
    match res {
        Ok(o) => out == Some(o),
        Err(v) => out is None && v == value,
    }
}

fn time_value(value: FieldValue) -> (res: Result<FormattedValue, FieldValue>)
    ensures
        exists|out: Option<FormattedValue>| time_formats(value, out) && carries(value, out, res),
{
    match value {
        FieldValue::Uint(v) => {
            let r = FormattedValue::Exact(LogValue::Time(Duration::from_micros(v)));
            assert(time_formats(value, Some(r)));
            Ok(r)
        },
        _ => {
            assert(time_formats(value, None));
            Err(value)
        },
    }
}

fn float_value(value: FieldValue) -> (res: Result<FormattedValue, FieldValue>)
    ensures
        exists|out: Option<FormattedValue>| float_formats(value, out) && carries(value, out, res),
{
    match value {
        FieldValue::Float(v) => {
            assert(float_formats(value, Some(FormattedValue::Exact(LogValue::F64(v)))));
            Ok(FormattedValue::Exact(LogValue::F64(v)))
        },
        FieldValue::Int(v) => {
            assert(float_formats(value, Some(FormattedValue::IntAsFloat(v))));
            Ok(FormattedValue::IntAsFloat(v))
        },
        _ => {
            assert(float_formats(value, None));
            Err(value)
        },
    }
}

fn unsigned_value(value: FieldValue) -> (res: Result<FormattedValue, FieldValue>)
    ensures
        exists|out: Option<FormattedValue>| unsigned_formats(value, out) && carries(value, out, res),
{
    match value {
        FieldValue::Int(v) => {
            assert(unsigned_formats(value, Some(FormattedValue::Exact(LogValue::U64(v as u64)))));
            Ok(FormattedValue::Exact(LogValue::U64(v as u64)))
        },
        FieldValue::Uint(v) => {
            assert(unsigned_formats(value, Some(FormattedValue::Exact(LogValue::U64(v)))));
            Ok(FormattedValue::Exact(LogValue::U64(v)))
        },
        _ => {
            assert(unsigned_formats(value, None));
            Err(value)
        },
    }
}

/// Formats a field of unknown meaning: `TimeUS` and `I` are checked for
/// their kind, everything else keeps its kind.
pub fn default_parse(value: FieldValue, label: &str) -> (res: Result<FormattedValue, ParseError>)
    ensures
        match res {
            Ok(o) => default_formats(label@, value, Some(o)),
            Err(e) => default_formats(label@, value, None) && (e matches ParseError::InvalidLabelType {
                label: l,
                value: v,
            } && l@ == label@ && v == value),
        },
{
    let out = if str_eq(label, "TimeUS") {
        match value {
            FieldValue::Uint(v) => Ok(FormattedValue::Exact(LogValue::Time(Duration::from_micros(v)))),
            _ => Err(value),
        }
    } else if str_eq(label, "I") {
        match value {
            FieldValue::Int(v) => Ok(FormattedValue::Exact(LogValue::I64(v))),
            FieldValue::Uint(v) => Ok(FormattedValue::Exact(LogValue::U64(v))),
            _ => Err(value),
        }
    } else {
        match value {
            FieldValue::Int(v) => Ok(FormattedValue::Exact(LogValue::I64(v))),
            FieldValue::Uint(v) => Ok(FormattedValue::Exact(LogValue::U64(v))),
            FieldValue::Float(v) => Ok(FormattedValue::Exact(LogValue::F64(v))),
            FieldValue::String(v) => Ok(FormattedValue::Exact(LogValue::String(v))),
            FieldValue::Array(v) => Ok(FormattedValue::Exact(LogValue::Array(v))),
        }
    };
    match out {
        Ok(o) => Ok(o),
        Err(v) => Err(ParseError::InvalidLabelType { label: label.to_owned(), value: v }),
    }
}

/// `res` is the outcome that `rule` prescribes for the field: the named
/// formatted value, or the `InvalidLabelType` error with the label's text and
/// the raw value when the rule has none.
pub open spec fn formatted_by(
    label: String,
    value: FieldValue,
    res: Result<FormattedField, ParseError>,
    rule: spec_fn(Option<FormattedValue>) -> bool,
) -> bool {
    match res {
        Ok(f) => f.name == label && rule(Some(f.value)),
        Err(e) => rule(None) && (e matches ParseError::InvalidLabelType { label: l, value: v } && l@
            == label@ && v == value),
    }
}

pub open spec fn literal_views(options: Seq<&str>) -> Seq<Seq<char>> {
    options.map_values(|s: &str| s@)
}

/// Whether `label` is one of `options`.
pub fn label_in(label: &str, options: &[&str]) -> (res: bool)
    ensures
        res == literal_views(options@).contains(label@),
{
    let mut i: usize = 0;
    while i < options.len()
        invariant
            i <= options@.len(),
            forall|j: int| 0 <= j < i ==> options@[j]@ != label@,
        decreases options@.len() - i,
    {
        if str_eq(options[i], label) {
            assert(literal_views(options@)[i as int] == label@);
            return true;
        }
        i = i + 1;
    }
    assert forall|j: int| 0 <= j < literal_views(options@).len() implies literal_views(options@)[j]
        != label@ by {
        assert(literal_views(options@)[j] == options@[j]@);
    }
    false
}

/// Finishes a field: the name with the formatted value, or the
/// `InvalidLabelType` error for a value of the wrong kind.
fn finish_field(
    label: String,
    out: Result<FormattedValue, FieldValue>,
) -> (res: Result<FormattedField, ParseError>)
    ensures
        match out {
            Ok(o) => res matches Ok(f) && f.name == label && f.value == o,
            Err(v) => res matches Err(ParseError::InvalidLabelType { label: l, value: w }) && l == label
                && w == v,
        },
{
    match out {
        Ok(o) => Ok(FormattedField { name: label, value: o }),
        Err(v) => Err(ParseError::InvalidLabelType { label, value: v }),
    }
}

/// Handles generic messages that no specialised provider takes: every
/// message, with the fallback interpretation of every field.
pub struct CommonSchemaProvider;

impl MessageSchemaProvider for CommonSchemaProvider {
    fn handles_message(&self, msg_name: &str) -> (res: bool)
        ensures
            res,
    {
        true
    }

    fn format_field(&self, label: String, value: FieldValue) -> (res: Result<FormattedField, ParseError>)
        ensures
            formatted_by(label, value, res, |o: Option<FormattedValue>| default_formats(label@, value, o)),
    {
        match default_parse(value, label.as_str()) {
            Ok(o) => Ok(FormattedField { name: label, value: o }),
            Err(e) => Err(e),
        }
    }
}

/// The PID, target and attitude terms of control messages.
pub open spec fn control_float_labels() -> Seq<Seq<char>> {
    seq![
        "Tar"@, "Act"@, "Err"@, "P"@, "I"@, "D"@, "FF"@, "DFF"@, "DesRoll"@, "Roll"@, "DesPitch"@,
        "Pitch"@, "DesYaw"@, "Yaw"@
    ]
}

pub open spec fn control_handles(name: Seq<char>) -> bool {
    "PID"@.is_prefix_of(name) || name == "CTUN"@ || name == "NTUN"@ || name == "RATE"@
}

pub open spec fn control_formats(label: Seq<char>, value: FieldValue, out: Option<FormattedValue>) -> bool {
    if label == "TimeUS"@ {
        time_formats(value, out)
    } else if control_float_labels().contains(label) {
        float_formats(value, out)
    } else if label == "Flags"@ {
        unsigned_formats(value, out)
    } else if label == "SRate"@ {
        match value {
            FieldValue::Float(v) => out == Some(FormattedValue::Exact(LogValue::F64(v))),
            _ => out is None,
        }
    } else {
        default_formats(label, value, out)
    }
}

/// Handles control and PID messages (PIDR, PIDP, CTUN, NTUN, RATE).
pub struct ControlSchemaProvider;

impl MessageSchemaProvider for ControlSchemaProvider {
    fn handles_message(&self, msg_name: &str) -> (res: bool)
        ensures
            res == control_handles(msg_name@),
    {
        starts_with(msg_name, "PID") || str_eq(msg_name, "CTUN") || str_eq(msg_name, "NTUN") || str_eq(
            msg_name,
            "RATE",
        )
    }

    fn format_field(&self, label: String, value: FieldValue) -> (res: Result<FormattedField, ParseError>)
        ensures
            formatted_by(label, value, res, |o: Option<FormattedValue>| control_formats(label@, value, o)),
    {
        let floats: [&str; 14] = [
            "Tar", "Act", "Err", "P", "I", "D", "FF", "DFF", "DesRoll", "Roll", "DesPitch", "Pitch",
            "DesYaw", "Yaw",
        ];
        proof {
            assert(literal_views(floats@) =~= control_float_labels());
        }
        let out = if str_eq(label.as_str(), "TimeUS") {
            time_value(value)
        } else if label_in(label.as_str(), &floats) {
            float_value(value)
        } else if str_eq(label.as_str(), "Flags") {
            unsigned_value(value)
        } else if str_eq(label.as_str(), "SRate") {
            match value {
                FieldValue::Float(v) => Ok(FormattedValue::Exact(LogValue::F64(v))),
                _ => Err(value),
            }
        } else {
            return match default_parse(value, label.as_str()) {
                Ok(o) => Ok(FormattedField { name: label, value: o }),
                Err(e) => Err(e),
            };
        };
        finish_field(label, out)
    }
}

pub open spec fn ekf_position_labels() -> Seq<Seq<char>> {
    seq!["Lat"@, "Lng"@, "PN"@, "PE"@, "PD"@, "PVN"@, "PVE"@, "PVD"@]
}

pub open spec fn ekf_velocity_labels() -> Seq<Seq<char>> {
    seq!["VN"@, "VE"@, "VD"@, "IVN"@, "IVE"@, "IVD"@, "RErr"@, "ErSc"@]
}

pub open spec fn ekf_handles(name: Seq<char>) -> bool {
    "NKF"@.is_prefix_of(name) || "XKF"@.is_prefix_of(name)
}

pub open spec fn ekf_formats(label: Seq<char>, value: FieldValue, out: Option<FormattedValue>) -> bool {
    if label == "TimeUS"@ {
        time_formats(value, out)
    } else if ekf_position_labels().contains(label) {
        match value {
            FieldValue::Int(v) => out == Some(FormattedValue::Exact(LogValue::Latitude(v as i32))),
            FieldValue::Uint(v) => out == Some(FormattedValue::Exact(LogValue::Longitude(v as i32))),
            FieldValue::Float(v) => out == Some(FormattedValue::Exact(LogValue::F64(v))),
            _ => out is None,
        }
    } else if ekf_velocity_labels().contains(label) {
        float_formats(value, out)
    } else if label == "C"@ {
        unsigned_formats(value, out)
    } else {
        default_formats(label, value, out)
    }
}

/// Handles EKF messages (NKF1-NKF5, XKF1-XKF5): positions, velocities,
/// innovations.
pub struct EkfSchemaProvider;

impl MessageSchemaProvider for EkfSchemaProvider {
    fn handles_message(&self, msg_name: &str) -> (res: bool)
        ensures
            res == ekf_handles(msg_name@),
    {
        starts_with(msg_name, "NKF") || starts_with(msg_name, "XKF")
    }

    fn format_field(&self, label: String, value: FieldValue) -> (res: Result<FormattedField, ParseError>)
        ensures
            formatted_by(label, value, res, |o: Option<FormattedValue>| ekf_formats(label@, value, o)),
    {
        let positions: [&str; 8] = ["Lat", "Lng", "PN", "PE", "PD", "PVN", "PVE", "PVD"];
        let velocities: [&str; 8] = ["VN", "VE", "VD", "IVN", "IVE", "IVD", "RErr", "ErSc"];
        proof {
            assert(literal_views(positions@) =~= ekf_position_labels());
            assert(literal_views(velocities@) =~= ekf_velocity_labels());
        }
        let out = if str_eq(label.as_str(), "TimeUS") {
            time_value(value)
        } else if label_in(label.as_str(), &positions) {
            match value {
                FieldValue::Int(v) => Ok(FormattedValue::Exact(LogValue::Latitude(v as i32))),
                FieldValue::Uint(v) => Ok(FormattedValue::Exact(LogValue::Longitude(v as i32))),
                FieldValue::Float(v) => Ok(FormattedValue::Exact(LogValue::F64(v))),
                _ => Err(value),
            }
        } else if label_in(label.as_str(), &velocities) {
            float_value(value)
        } else if str_eq(label.as_str(), "C") {
            unsigned_value(value)
        } else {
            return match default_parse(value, label.as_str()) {
                Ok(o) => Ok(FormattedField { name: label, value: o }),
                Err(e) => Err(e),
            };
        };
        finish_field(label, out)
    }
}

pub open spec fn gps_measure_labels() -> Seq<Seq<char>> {
    seq!["Alt"@, "Spd"@, "HDop"@, "VDop"@]
}

pub open spec fn gps_handles(name: Seq<char>) -> bool {
    name == "GPS"@ || name == "GPA"@ || name == "GRAW"@
}

pub open spec fn gps_formats(label: Seq<char>, value: FieldValue, out: Option<FormattedValue>) -> bool {
    if label == "TimeUS"@ {
        time_formats(value, out)
    } else if label == "Lat"@ || label == "Lng"@ {
        match value {
            FieldValue::Int(v) => out == Some(FormattedValue::IntDegrees(v)),
            FieldValue::Uint(v) => out == Some(FormattedValue::UintDegrees(v)),
            _ => out is None,
        }
    } else if gps_measure_labels().contains(label) {
        float_formats(value, out)
    } else if label == "Status"@ || label == "NSats"@ {
        unsigned_formats(value, out)
    } else {
        default_formats(label, value, out)
    }
}

/// Handles GPS messages (GPS, GPA, GRAW); coordinates are degrees * 10^7.
pub struct GpsSchemaProvider;

impl MessageSchemaProvider for GpsSchemaProvider {
    fn handles_message(&self, msg_name: &str) -> (res: bool)
        ensures
            res == gps_handles(msg_name@),
    {
        str_eq(msg_name, "GPS") || str_eq(msg_name, "GPA") || str_eq(msg_name, "GRAW")
    }

    fn format_field(&self, label: String, value: FieldValue) -> (res: Result<FormattedField, ParseError>)
        ensures
            formatted_by(label, value, res, |o: Option<FormattedValue>| gps_formats(label@, value, o)),
    {
        let measures: [&str; 4] = ["Alt", "Spd", "HDop", "VDop"];
        proof {
            assert(literal_views(measures@) =~= gps_measure_labels());
        }
        let out = if str_eq(label.as_str(), "TimeUS") {
            time_value(value)
        } else if str_eq(label.as_str(), "Lat") || str_eq(label.as_str(), "Lng") {
            match value {
                FieldValue::Int(v) => Ok(FormattedValue::IntDegrees(v)),
                FieldValue::Uint(v) => Ok(FormattedValue::UintDegrees(v)),
                _ => Err(value),
            }
        } else if label_in(label.as_str(), &measures) {
            float_value(value)
        } else if str_eq(label.as_str(), "Status") || str_eq(label.as_str(), "NSats") {
            unsigned_value(value)
        } else {
            return match default_parse(value, label.as_str()) {
                Ok(o) => Ok(FormattedField { name: label, value: o }),
                Err(e) => Err(e),
            };
        };
        finish_field(label, out)
    }
}

pub open spec fn imu_sensor_labels() -> Seq<Seq<char>> {
    seq![
        "GyrX"@, "GyrY"@, "GyrZ"@, "AccX"@, "AccY"@, "AccZ"@, "EG"@, "EA"@, "T"@, "GH"@, "AH"@, "GHz"@,
        "AHz"@
    ]
}

pub open spec fn imu_formats(label: Seq<char>, value: FieldValue, out: Option<FormattedValue>) -> bool {
    if label == "TimeUS"@ {
        time_formats(value, out)
    } else if imu_sensor_labels().contains(label) {
        match value {
            FieldValue::Float(v) => out == Some(FormattedValue::Exact(LogValue::F64(v))),
            FieldValue::Int(v) => out == Some(FormattedValue::IntAsFloat(v)),
            FieldValue::Uint(v) => out == Some(FormattedValue::UintAsFloat(v)),
            _ => out is None,
        }
    } else if label == "I"@ {
        unsigned_formats(value, out)
    } else {
        default_formats(label, value, out)
    }
}

/// Handles IMU messages: gyro and accelerometer readings as floats.
pub struct ImuSchemaProvider;

impl MessageSchemaProvider for ImuSchemaProvider {
    fn handles_message(&self, msg_name: &str) -> (res: bool)
        ensures
            res == (msg_name@ == "IMU"@),
    {
        str_eq(msg_name, "IMU")
    }

    fn format_field(&self, label: String, value: FieldValue) -> (res: Result<FormattedField, ParseError>)
        ensures
            formatted_by(label, value, res, |o: Option<FormattedValue>| imu_formats(label@, value, o)),
    {
        let sensors: [&str; 13] = [
            "GyrX", "GyrY", "GyrZ", "AccX", "AccY", "AccZ", "EG", "EA", "T", "GH", "AH", "GHz", "AHz",
        ];
        proof {
            assert(literal_views(sensors@) =~= imu_sensor_labels());
        }
        let out = if str_eq(label.as_str(), "TimeUS") {
            time_value(value)
        } else if label_in(label.as_str(), &sensors) {
            match value {
                FieldValue::Float(v) => Ok(FormattedValue::Exact(LogValue::F64(v))),
                FieldValue::Int(v) => Ok(FormattedValue::IntAsFloat(v)),
                FieldValue::Uint(v) => Ok(FormattedValue::UintAsFloat(v)),
                _ => Err(value),
            }
        } else if str_eq(label.as_str(), "I") {
            unsigned_value(value)
        } else {
            return match default_parse(value, label.as_str()) {
                Ok(o) => Ok(FormattedField { name: label, value: o }),
                Err(e) => Err(e),
            };
        };
        finish_field(label, out)
    }
}

/// An RC channel label: `C` followed by a channel number from 1 to 32.
pub open spec fn is_rc_channel(label: Seq<char>) -> bool {
    &&& label.len() > 0
    &&& label[0] == 'C'
    &&& parse_u32(label.drop_first()) matches Some(n)
    &&& 1 <= n <= 32
}

pub open spec fn rc_handles(name: Seq<char>) -> bool {
    name == "RCIN"@ || name == "RCOU"@ || name == "RCI2"@ || name == "RCO2"@
}

pub open spec fn rc_formats(label: Seq<char>, value: FieldValue, out: Option<FormattedValue>) -> bool {
    if is_rc_channel(label) {
        match value {
            FieldValue::Uint(v) => out == Some(FormattedValue::Exact(LogValue::U64(v))),
            FieldValue::Int(v) => out == Some(FormattedValue::Exact(LogValue::I64(v))),
            _ => out is None,
        }
    } else {
        default_formats(label, value, out)
    }
}

pub fn rc_channel(label: &str) -> (res: bool)
    ensures
        res == is_rc_channel(label@),
{
    if label.unicode_len() == 0 || label.get_char(0) != 'C' {
        return false;
    }
    assert(label@.skip(1) =~= label@.drop_first());
    match parse_u32_from(label, 1) {
        Some(n) => 1 <= n && n <= 32,
        None => false,
    }
}

/// Handles RC input and output messages (RCIN, RCOU, RCI2, RCO2).
pub struct RcSchemaProvider;

impl MessageSchemaProvider for RcSchemaProvider {
    fn handles_message(&self, msg_name: &str) -> (res: bool)
        ensures
            res == rc_handles(msg_name@),
    {
        str_eq(msg_name, "RCIN") || str_eq(msg_name, "RCOU") || str_eq(msg_name, "RCI2") || str_eq(
            msg_name,
            "RCO2",
        )
    }

    fn format_field(&self, label: String, value: FieldValue) -> (res: Result<FormattedField, ParseError>)
        ensures
            formatted_by(label, value, res, |o: Option<FormattedValue>| rc_formats(label@, value, o)),
    {
        if rc_channel(label.as_str()) {
            let out = match value {
                FieldValue::Uint(v) => Ok(FormattedValue::Exact(LogValue::U64(v))),
                FieldValue::Int(v) => Ok(FormattedValue::Exact(LogValue::I64(v))),
                _ => Err(value),
            };
            finish_field(label, out)
        } else {
            match default_parse(value, label.as_str()) {
                Ok(o) => Ok(FormattedField { name: label, value: o }),
                Err(e) => Err(e),
            }
        }
    }
}

/// The schema providers, in the order in which they are asked: the
/// specialised ones first, the catch-all last.
pub enum Provider {
    Imu,
    Ekf,
    Gps,
    Control,
    Rc,
    Common,
}

/// The provider that interprets messages of this name: the first in
/// registration order that handles it.
pub open spec fn provider_for(name: Seq<char>) -> Provider {
    if name == "IMU"@ {
        Provider::Imu
    } else if ekf_handles(name) {
        Provider::Ekf
    } else if gps_handles(name) {
        Provider::Gps
    } else if control_handles(name) {
        Provider::Control
    } else if rc_handles(name) {
        Provider::Rc
    } else {
        Provider::Common
    }
}

pub open spec fn provider_formats(p: Provider, label: Seq<char>, value: FieldValue, out: Option<FormattedValue>) -> bool {
    match p {
        Provider::Imu => imu_formats(label, value, out),
        Provider::Ekf => ekf_formats(label, value, out),
        Provider::Gps => gps_formats(label, value, out),
        Provider::Control => control_formats(label, value, out),
        Provider::Rc => rc_formats(label, value, out),
        Provider::Common => default_formats(label, value, out),
    }
}

/// Picks the provider for a message name; the catch-all always matches.
pub fn select_provider(msg_name: &str) -> (res: Provider)
    ensures
        res == provider_for(msg_name@),
{
    if ImuSchemaProvider.handles_message(msg_name) {
        Provider::Imu
    } else if EkfSchemaProvider.handles_message(msg_name) {
        Provider::Ekf
    } else if GpsSchemaProvider.handles_message(msg_name) {
        Provider::Gps
    } else if ControlSchemaProvider.handles_message(msg_name) {
        Provider::Control
    } else if RcSchemaProvider.handles_message(msg_name) {
        Provider::Rc
    } else {
        Provider::Common
    }
}

/// Formats a field with the given provider.
pub fn format_with(p: &Provider, label: String, value: FieldValue) -> (res: Result<FormattedField, ParseError>)
    ensures
        formatted_by(label, value, res, |o: Option<FormattedValue>| provider_formats(*p, label@, value, o)),
{
    match p {
        Provider::Imu => ImuSchemaProvider.format_field(label, value),
        Provider::Ekf => EkfSchemaProvider.format_field(label, value),
        Provider::Gps => GpsSchemaProvider.format_field(label, value),
        Provider::Control => ControlSchemaProvider.format_field(label, value),
        Provider::Rc => RcSchemaProvider.format_field(label, value),
        Provider::Common => CommonSchemaProvider.format_field(label, value),
    }
}

/// A message as the DataFlash reader hands it over.
pub struct RawEntry {
    pub msg_type: u8,
    pub name: String,
    /// Microseconds since boot.
    pub timestamp_usec: Option<u64>,
    pub labels: Vec<String>,
    pub values: Vec<FieldValue>,
}

/// A message with its fields interpreted by its provider.
pub struct FormattedEntry {
    pub id: u8,
    pub name: String,
    pub timestamp: Option<Duration>,
    pub fields: Vec<FormattedField>,
}

pub open spec fn paired_len(raw: RawEntry) -> int {
    if raw.labels@.len() < raw.values@.len() {
        raw.labels@.len() as int
    } else {
        raw.values@.len() as int
    }
}

/// Whether the provider of the message rejects field `i`.
pub open spec fn field_rejected(raw: RawEntry, i: int) -> bool {
    provider_formats(provider_for(raw.name@), raw.labels@[i]@, raw.values@[i], None)
}

/// Interprets a raw message: picks its provider and formats each labelled
/// value with it, in order; the first value of the wrong kind for its label
/// makes the whole message an `InvalidLabelType` error.
pub fn format_entry(raw: RawEntry) -> (res: Result<FormattedEntry, ParseError>)
    ensures
        match res {
            Ok(e) => {
                &&& e.id == raw.msg_type
                &&& e.name == raw.name
                &&& (e.timestamp is Some <==> raw.timestamp_usec is Some)
                &&& (raw.timestamp_usec matches Some(us) ==> e.timestamp->0@ == us * 1000)
                &&& e.fields@.len() == paired_len(raw)
                &&& forall|i: int|
                    0 <= i < paired_len(raw) ==> (#[trigger] e.fields@[i]).name == raw.labels@[i]
                        && provider_formats(
                        provider_for(raw.name@),
                        raw.labels@[i]@,
                        raw.values@[i],
                        Some(e.fields@[i].value),
                    )
            },
            Err(err) => exists|i: int|
                0 <= i < paired_len(raw) && (forall|j: int| 0 <= j < i ==> !field_rejected(raw, j))
                    && field_rejected(raw, i) && (err matches ParseError::InvalidLabelType {
                    label: l,
                    value: v,
                } && l@ == raw.labels@[i]@ && v == raw.values@[i]),
        },
{
    let ghost orig = raw;
    let RawEntry { msg_type, name, timestamp_usec, labels, values } = raw;
    let provider = select_provider(name.as_str());
    let n = if labels.len() < values.len() { labels.len() } else { values.len() };
    let mut values = values;
    values.truncate(n);
    let ghost kept = values@;
    assert(kept =~= orig.values@.take(n as int));
    let mut fields: Vec<FormattedField> = Vec::new();
    for value in it: values.into_iter()
        invariant
            it.seq() == kept,
            orig == raw,
            n == paired_len(orig),
            kept.len() == n,
            kept == orig.values@.take(n as int),
            labels@ == orig.labels@,
            name == orig.name,
            provider == provider_for(orig.name@),
            fields@.len() == it.index(),
            forall|i: int| 0 <= i < it.index() ==> !field_rejected(orig, i),
            forall|i: int|
                0 <= i < it.index() ==> (#[trigger] fields@[i]).name == orig.labels@[i]
                    && provider_formats(provider, orig.labels@[i]@, orig.values@[i], Some(fields@[i].value)),
    {
        let i = fields.len();
        assert(value == orig.values@[i as int]);
        let label = labels[i].clone();
        match format_with(&provider, label, value) {
            Ok(f) => {
                fields.push(f);
            },
            Err(e) => {
                assert(field_rejected(orig, i as int));
                assert(0 <= i < paired_len(orig) && (forall|j: int| 0 <= j < i ==> !field_rejected(orig, j))
                    && field_rejected(orig, i as int) && (e matches ParseError::InvalidLabelType {
                    label: l,
                    value: v,
                } && l@ == orig.labels@[i as int]@ && v == orig.values@[i as int]));
                return Err(e);
            },
        }
    }
    let timestamp = match timestamp_usec {
        Some(us) => Some(Duration::from_micros(us)),
        None => None,
    };
    Ok(FormattedEntry { id: msg_type, name, timestamp, fields })
}

/// The fallback interpretation accepts every value of every field other
/// than `TimeUS` and `I`.
pub proof fn lemma_default_accepts_ordinary_labels(label: Seq<char>, value: FieldValue)
    requires
        label != "TimeUS"@,
        label != "I"@,
    ensures
        !default_formats(label, value, None),
{
}

/// Every message name has a provider, and only names no specialised
/// provider handles fall back to the catch-all.
pub proof fn lemma_provider_fallback(name: Seq<char>)
    ensures
        provider_for(name) is Common <==> !(name == "IMU"@ || ekf_handles(name) || gps_handles(name)
            || control_handles(name) || rc_handles(name)),
{
}

/// GPS coordinates: `Lat` and `Lng` are read alike, an integer or unsigned
/// value as degrees from degrees * 10^7, anything else refused.
pub proof fn lemma_gps_coordinates(value: FieldValue, out: Option<FormattedValue>)
    ensures
        gps_formats("Lat"@, value, out) == gps_formats("Lng"@, value, out),
        value matches FieldValue::Int(v) ==> (gps_formats("Lat"@, value, out) <==> out == Some(
            FormattedValue::IntDegrees(v),
        )),
        value matches FieldValue::Uint(v) ==> (gps_formats("Lat"@, value, out) <==> out == Some(
            FormattedValue::UintDegrees(v),
        )),
        !(value is Int || value is Uint) ==> (gps_formats("Lat"@, value, out) <==> out is None),
{
    reveal_strlit("Lat");
    reveal_strlit("Lng");
    reveal_strlit("TimeUS");
    assert("Lat"@ != "TimeUS"@ && "Lng"@ != "TimeUS"@) by {
        assert("Lat"@.len() != "TimeUS"@.len());
        assert("Lng"@.len() != "TimeUS"@.len());
    }
}

/// EKF positions: all eight position labels are read alike, an integer as a
/// latitude and an unsigned value as a longitude (both truncated to 32
/// bits), a float as it is, anything else refused.
pub proof fn lemma_ekf_positions(label: Seq<char>, value: FieldValue, out: Option<FormattedValue>)
    requires
        ekf_position_labels().contains(label),
    ensures
        ekf_formats(label, value, out) == ekf_formats("Lat"@, value, out),
        value matches FieldValue::Int(v) ==> (ekf_formats(label, value, out) <==> out == Some(
            FormattedValue::Exact(LogValue::Latitude(v as i32)),
        )),
        value matches FieldValue::Uint(v) ==> (ekf_formats(label, value, out) <==> out == Some(
            FormattedValue::Exact(LogValue::Longitude(v as i32)),
        )),
        value matches FieldValue::Float(v) ==> (ekf_formats(label, value, out) <==> out == Some(
            FormattedValue::Exact(LogValue::F64(v)),
        )),
        (value is String || value is Array) ==> (ekf_formats(label, value, out) <==> out is None),
{
    reveal_strlit("TimeUS");
    reveal_strlit("Lat");
    let k = choose|k: int| 0 <= k < ekf_position_labels().len() && ekf_position_labels()[k] == label;
    assert(ekf_position_labels()[0] == "Lat"@);
    assert(ekf_position_labels().contains("Lat"@));
    assert(label != "TimeUS"@) by {
        reveal_strlit("Lng");
        reveal_strlit("PN");
        reveal_strlit("PE");
        reveal_strlit("PD");
        reveal_strlit("PVN");
        reveal_strlit("PVE");
        reveal_strlit("PVD");
        assert(label.len() <= 3);
    }
    assert("Lat"@ != "TimeUS"@) by {
        assert("Lat"@.len() != "TimeUS"@.len());
    }
}

/// IMU readings: every sensor label turns a float, an integer or an unsigned
/// value into a float reading and refuses anything else.
pub proof fn lemma_imu_sensors(label: Seq<char>, value: FieldValue, out: Option<FormattedValue>)
    requires
        imu_sensor_labels().contains(label),
    ensures
        value matches FieldValue::Float(v) ==> (imu_formats(label, value, out) <==> out == Some(
            FormattedValue::Exact(LogValue::F64(v)),
        )),
        value matches FieldValue::Int(v) ==> (imu_formats(label, value, out) <==> out == Some(
            FormattedValue::IntAsFloat(v),
        )),
        value matches FieldValue::Uint(v) ==> (imu_formats(label, value, out) <==> out == Some(
            FormattedValue::UintAsFloat(v),
        )),
        (value is String || value is Array) ==> (imu_formats(label, value, out) <==> out is None),
{
    reveal_strlit("TimeUS");
    assert(label != "TimeUS"@) by {
        reveal_strlit("GyrX");
        reveal_strlit("GyrY");
        reveal_strlit("GyrZ");
        reveal_strlit("AccX");
        reveal_strlit("AccY");
        reveal_strlit("AccZ");
        reveal_strlit("EG");
        reveal_strlit("EA");
        reveal_strlit("T");
        reveal_strlit("GH");
        reveal_strlit("AH");
        reveal_strlit("GHz");
        reveal_strlit("AHz");
        let k = choose|k: int| 0 <= k < imu_sensor_labels().len() && imu_sensor_labels()[k] == label;
        assert(label.len() <= 4);
    }
}

/// Every provider reads `TimeUS` alike: an unsigned count of microseconds
/// becomes that time, anything else is refused.
pub proof fn lemma_time_fields(p: Provider, value: FieldValue, out: Option<FormattedValue>)
    ensures
        value matches FieldValue::Uint(v) ==> (provider_formats(p, "TimeUS"@, value, out) <==> (out matches Some(
            FormattedValue::Exact(LogValue::Time(d)),
        ) && d@ == v * 1000)),
        !(value is Uint) ==> (provider_formats(p, "TimeUS"@, value, out) <==> out is None),
{
    reveal_strlit("TimeUS");
    reveal_strlit("C");
    assert(!is_rc_channel("TimeUS"@)) by {
        assert("TimeUS"@[0] == 'T');
    }
}

/// Fields of no special meaning keep their kind: an integer stays an
/// integer, an unsigned value unsigned, a float a float, a text a text and
/// an array an array.
pub proof fn lemma_default_keeps_kinds(label: Seq<char>, value: FieldValue, out: Option<FormattedValue>)
    requires
        label != "TimeUS"@,
        label != "I"@,
    ensures
        default_formats(label, value, out) <==> out == Some(
            FormattedValue::Exact(
                match value {
                    FieldValue::Int(v) => LogValue::I64(v),
                    FieldValue::Uint(v) => LogValue::U64(v),
                    FieldValue::Float(v) => LogValue::F64(v),
                    FieldValue::String(v) => LogValue::String(v),
                    FieldValue::Array(v) => LogValue::Array(v),
                },
            ),
        ),
{
}

/// Control terms: every PID, target and attitude label turns a float into a
/// float reading and an integer into one, and refuses anything else.
pub proof fn lemma_control_terms(label: Seq<char>, value: FieldValue, out: Option<FormattedValue>)
    requires
        control_float_labels().contains(label),
    ensures
        value matches FieldValue::Float(v) ==> (control_formats(label, value, out) <==> out == Some(
            FormattedValue::Exact(LogValue::F64(v)),
        )),
        value matches FieldValue::Int(v) ==> (control_formats(label, value, out) <==> out == Some(
            FormattedValue::IntAsFloat(v),
        )),
        !(value is Float || value is Int) ==> (control_formats(label, value, out) <==> out is None),
{
    reveal_strlit("TimeUS");
    assert(label != "TimeUS"@) by {
        reveal_strlit("Tar");
        reveal_strlit("Act");
        reveal_strlit("Err");
        reveal_strlit("P");
        reveal_strlit("I");
        reveal_strlit("D");
        reveal_strlit("FF");
        reveal_strlit("DFF");
        reveal_strlit("DesRoll");
        reveal_strlit("Roll");
        reveal_strlit("DesPitch");
        reveal_strlit("Pitch");
        reveal_strlit("DesYaw");
        reveal_strlit("Yaw");
        let k = choose|k: int| 0 <= k < control_float_labels().len() && control_float_labels()[k] == label;
        assert(label.len() != 6 || label[0] != 'T');
    }
}

/// RC channels: a channel label keeps an unsigned value unsigned and an
/// integer signed, and refuses anything else.
pub proof fn lemma_rc_channels(label: Seq<char>, value: FieldValue, out: Option<FormattedValue>)
    requires
        is_rc_channel(label),
    ensures
        value matches FieldValue::Uint(v) ==> (rc_formats(label, value, out) <==> out == Some(
            FormattedValue::Exact(LogValue::U64(v)),
        )),
        value matches FieldValue::Int(v) ==> (rc_formats(label, value, out) <==> out == Some(
            FormattedValue::Exact(LogValue::I64(v)),
        )),
        !(value is Uint || value is Int) ==> (rc_formats(label, value, out) <==> out is None),
{
}

/// Which provider reads a message: IMU messages the IMU provider, names
/// starting `NKF` or `XKF` the EKF provider, `GPS`, `GPA` and `GRAW` the
/// GPS provider, names starting `PID` and `CTUN`, `NTUN`, `RATE` the
/// control provider, `RCIN`, `RCOU`, `RCI2`, `RCO2` the RC provider.
pub proof fn lemma_provider_choice(suffix: Seq<char>)
    ensures
        provider_for("IMU"@) is Imu,
        provider_for("NKF"@ + suffix) is Ekf,
        provider_for("XKF"@ + suffix) is Ekf,
        provider_for("GPS"@) is Gps,
        provider_for("GPA"@) is Gps,
        provider_for("GRAW"@) is Gps,
        provider_for("PID"@ + suffix) is Control,
        provider_for("CTUN"@) is Control,
        provider_for("NTUN"@) is Control,
        provider_for("RATE"@) is Control,
        provider_for("RCIN"@) is Rc,
        provider_for("RCOU"@) is Rc,
        provider_for("RCI2"@) is Rc,
        provider_for("RCO2"@) is Rc,
{
    reveal_strlit("IMU");
    reveal_strlit("NKF");
    reveal_strlit("XKF");
    reveal_strlit("GPS");
    reveal_strlit("GPA");
    reveal_strlit("GRAW");
    reveal_strlit("PID");
    reveal_strlit("CTUN");
    reveal_strlit("NTUN");
    reveal_strlit("RATE");
    reveal_strlit("RCIN");
    reveal_strlit("RCOU");
    reveal_strlit("RCI2");
    reveal_strlit("RCO2");
    let nkf = "NKF"@ + suffix;
    let xkf = "XKF"@ + suffix;
    let pid = "PID"@ + suffix;
    assert("NKF"@.is_prefix_of(nkf)) by {
        assert(nkf.subrange(0, 3) =~= "NKF"@);
    }
    assert("XKF"@.is_prefix_of(xkf)) by {
        assert(xkf.subrange(0, 3) =~= "XKF"@);
    }
    assert("PID"@.is_prefix_of(pid)) by {
        assert(pid.subrange(0, 3) =~= "PID"@);
    }
    assert(nkf[0] == 'N' && xkf[0] == 'X' && pid[0] == 'P');
    assert(nkf != "IMU"@ && xkf != "IMU"@ && pid != "IMU"@);
    assert(!ekf_handles(pid)) by {
        if "NKF"@.is_prefix_of(pid) {
            assert(pid[0] == "NKF"@[0]);
        }
        if "XKF"@.is_prefix_of(pid) {
            assert(pid[0] == "XKF"@[0]);
        }
    }
    assert(!gps_handles(pid)) by {
        assert(pid[0] == 'P');
        assert("GPS"@[0] == 'G' && "GPA"@[0] == 'G' && "GRAW"@[0] == 'G');
    }
    assert(!ekf_handles("GPS"@) && !ekf_handles("GPA"@) && !ekf_handles("GRAW"@)) by {
        if "NKF"@.is_prefix_of("GPS"@) { assert("GPS"@[0] == 'N'); }
        if "XKF"@.is_prefix_of("GPS"@) { assert("GPS"@[0] == 'X'); }
        if "NKF"@.is_prefix_of("GPA"@) { assert("GPA"@[0] == 'N'); }
        if "XKF"@.is_prefix_of("GPA"@) { assert("GPA"@[0] == 'X'); }
        if "NKF"@.is_prefix_of("GRAW"@) { assert("GRAW"@[0] == 'N'); }
        if "XKF"@.is_prefix_of("GRAW"@) { assert("GRAW"@[0] == 'X'); }
    }
    assert(!ekf_handles("CTUN"@) && !ekf_handles("NTUN"@) && !ekf_handles("RATE"@)) by {
        if "NKF"@.is_prefix_of("CTUN"@) { assert("CTUN"@[0] == 'N'); }
        if "XKF"@.is_prefix_of("CTUN"@) { assert("CTUN"@[0] == 'X'); }
        if "NKF"@.is_prefix_of("NTUN"@) { assert("NTUN"@.subrange(0, 3)[1] == "NTUN"@[1]); }
        if "XKF"@.is_prefix_of("NTUN"@) { assert("NTUN"@[0] == 'X'); }
        if "NKF"@.is_prefix_of("RATE"@) { assert("RATE"@[0] == 'N'); }
        if "XKF"@.is_prefix_of("RATE"@) { assert("RATE"@[0] == 'X'); }
    }
    assert(!ekf_handles("RCIN"@) && !ekf_handles("RCOU"@) && !ekf_handles("RCI2"@) && !ekf_handles("RCO2"@)) by {
        if "NKF"@.is_prefix_of("RCIN"@) { assert("RCIN"@[0] == 'N'); }
        if "XKF"@.is_prefix_of("RCIN"@) { assert("RCIN"@[0] == 'X'); }
        if "NKF"@.is_prefix_of("RCOU"@) { assert("RCOU"@[0] == 'N'); }
        if "XKF"@.is_prefix_of("RCOU"@) { assert("RCOU"@[0] == 'X'); }
        if "NKF"@.is_prefix_of("RCI2"@) { assert("RCI2"@[0] == 'N'); }
        if "XKF"@.is_prefix_of("RCI2"@) { assert("RCI2"@[0] == 'X'); }
        if "NKF"@.is_prefix_of("RCO2"@) { assert("RCO2"@[0] == 'N'); }
        if "XKF"@.is_prefix_of("RCO2"@) { assert("RCO2"@[0] == 'X'); }
    }
    assert(!control_handles("RCIN"@) && !control_handles("RCOU"@) && !control_handles("RCI2"@) && !control_handles("RCO2"@)) by {
        if "PID"@.is_prefix_of("RCIN"@) { assert("RCIN"@[0] == 'P'); }
        if "PID"@.is_prefix_of("RCOU"@) { assert("RCOU"@[0] == 'P'); }
        if "PID"@.is_prefix_of("RCI2"@) { assert("RCI2"@[0] == 'P'); }
        if "PID"@.is_prefix_of("RCO2"@) { assert("RCO2"@[0] == 'P'); }
        assert("RCIN"@[1] != "RATE"@[1] && "RCOU"@[1] != "RATE"@[1] && "RCI2"@[1] != "RATE"@[1] && "RCO2"@[1] != "RATE"@[1]);
        assert("RCIN"@[0] != "CTUN"@[0] && "RCIN"@[0] != "NTUN"@[0]);
    }
}

} // verus!
