use vstd::prelude::*;

use crate::time::Duration;

verus! {

/// A decoded field value of a log message.
///
/// Floating-point quantities are carried as the bit pattern of their IEEE-754
/// binary64 encoding; `f64_bits_eq` gives them the equality of `f64`.
pub enum LogValue {
    I64(i64),
    U64(u64),
    /// Bit pattern of an `f64`.
    F64(u64),
    Array(Vec<i16>),
    Time(Duration),
    /// Degrees.
    Latitude(i32),
    /// Degrees.
    Longitude(i32),
    /// Metres, as the bit pattern of an `f64`.
    Altitude(u64),
    FlightMode(u8),
    /// `int16_t * scale`, as the bit pattern of an `f64`.
    ScaledI16(u64),
    /// `int32_t * scale`, as the bit pattern of an `f64`.
    ScaledI32(u64),
    String(String),
}

/// A named field of a log message.
pub struct LogField {
    pub name: String,
    pub value: LogValue,
}

/// One message of a flight log.
pub struct LogEntry {
    /// The message type id.
    pub id: u8,
    pub name: String,
    /// Time since boot, taken from the message's first timestamp field.
    pub timestamp: Option<Duration>,
    pub fields: Vec<LogField>,
}

/// A raw field value as the DataFlash reader hands it over.
pub enum FieldValue {
    /// Integer codes (b, B, h, H, i, I, q, M, L).
    Int(i64),
    /// Unsigned 64-bit code (Q).
    Uint(u64),
    /// Floating-point and pre-scaled codes, as the bit pattern of an `f64`.
    Float(u64),
    /// String codes (n, N, Z).
    String(String),
    /// Array code (a).
    Array(Vec<i16>),
}

pub open spec fn f64_bits_is_nan(bits: u64) -> bool {
    &&& bits & 0x7ff0_0000_0000_0000u64 == 0x7ff0_0000_0000_0000u64
    &&& bits & 0x000f_ffff_ffff_ffffu64 != 0
}

pub open spec fn f64_bits_is_zero(bits: u64) -> bool {
    bits & 0x7fff_ffff_ffff_ffffu64 == 0
}

/// IEEE-754 equality of two binary64 values given by their bit patterns:
/// NaN equals nothing, the two zeros are equal, every other value equals
/// exactly itself.
pub open spec fn f64_bits_eq(a: u64, b: u64) -> bool {
    &&& !f64_bits_is_nan(a)
    &&& !f64_bits_is_nan(b)
    &&& (a == b || (f64_bits_is_zero(a) && f64_bits_is_zero(b)))
}

/// `f64` equality on bit patterns.
pub fn f64_bits_equal(a: u64, b: u64) -> (res: bool)
    ensures
        res == f64_bits_eq(a, b),
{
    let a_nan = a & 0x7ff0_0000_0000_0000u64 == 0x7ff0_0000_0000_0000u64
        && a & 0x000f_ffff_ffff_ffffu64 != 0;
    let b_nan = b & 0x7ff0_0000_0000_0000u64 == 0x7ff0_0000_0000_0000u64
        && b & 0x000f_ffff_ffff_ffffu64 != 0;
    let both_zero = a & 0x7fff_ffff_ffff_ffffu64 == 0 && b & 0x7fff_ffff_ffff_ffffu64 == 0;
    !a_nan && !b_nan && (a == b || both_zero)
}

/// The equality of log values: variant by variant, floats as `f64`,
/// strings and arrays by content.
pub open spec fn log_value_eq(a: LogValue, b: LogValue) -> bool {
    match (a, b) {
        (LogValue::I64(x), LogValue::I64(y)) => x == y,
        (LogValue::U64(x), LogValue::U64(y)) => x == y,
        (LogValue::F64(x), LogValue::F64(y)) => f64_bits_eq(x, y),
        (LogValue::Array(x), LogValue::Array(y)) => x@ == y@,
        (LogValue::Time(x), LogValue::Time(y)) => x@ == y@,
        (LogValue::Latitude(x), LogValue::Latitude(y)) => x == y,
        (LogValue::Longitude(x), LogValue::Longitude(y)) => x == y,
        (LogValue::Altitude(x), LogValue::Altitude(y)) => f64_bits_eq(x, y),
        (LogValue::FlightMode(x), LogValue::FlightMode(y)) => x == y,
        (LogValue::ScaledI16(x), LogValue::ScaledI16(y)) => f64_bits_eq(x, y),
        (LogValue::ScaledI32(x), LogValue::ScaledI32(y)) => f64_bits_eq(x, y),
        (LogValue::String(x), LogValue::String(y)) => x@ == y@,
        _ => false,
    }
}

/// Whether a value converts to a number: every variant but arrays and strings.
pub open spec fn is_numeric(v: LogValue) -> bool {
    !(v is Array) && !(v is String)
}

pub fn i16_slices_equal(a: &Vec<i16>, b: &Vec<i16>) -> (res: bool)
    ensures
        res == (a@ == b@),
{
    if a.len() != b.len() {
        return false;
    }
    let mut i: usize = 0;
    while i < a.len()
        invariant
            a.len() == b.len(),
            i <= a.len(),
            forall|j: int| 0 <= j < i ==> a@[j] == b@[j],
        decreases a.len() - i,
    {
        if a[i] != b[i] {
            return false;
        }
        i = i + 1;
    }
    assert(a@ =~= b@);
    true
}

impl LogValue {
    /// `==` on log values.
    pub fn equals(&self, other: &LogValue) -> (res: bool)
        ensures
            res == log_value_eq(*self, *other),
    {
        match (self, other) {
            (LogValue::I64(x), LogValue::I64(y)) => *x == *y,
            (LogValue::U64(x), LogValue::U64(y)) => *x == *y,
            (LogValue::F64(x), LogValue::F64(y)) => f64_bits_equal(*x, *y),
            (LogValue::Array(x), LogValue::Array(y)) => i16_slices_equal(x, y),
            (LogValue::Time(x), LogValue::Time(y)) => x.eq(y),
            (LogValue::Latitude(x), LogValue::Latitude(y)) => *x == *y,
            (LogValue::Longitude(x), LogValue::Longitude(y)) => *x == *y,
            (LogValue::Altitude(x), LogValue::Altitude(y)) => f64_bits_equal(*x, *y),
            (LogValue::FlightMode(x), LogValue::FlightMode(y)) => *x == *y,
            (LogValue::ScaledI16(x), LogValue::ScaledI16(y)) => f64_bits_equal(*x, *y),
            (LogValue::ScaledI32(x), LogValue::ScaledI32(y)) => f64_bits_equal(*x, *y),
            (LogValue::String(x), LogValue::String(y)) => *x == *y,
            _ => false,
        }
    }

    /// Whether the value converts to a number (`try_into_float` gives `Some`).
    pub fn is_numeric(&self) -> (res: bool)
        ensures
            res == is_numeric(*self),
    {
        match self {
            LogValue::Array(_) | LogValue::String(_) => false,
            _ => true,
        }
    }
}

/// Equality of log values is symmetric.
pub proof fn lemma_log_value_eq_symmetric(a: LogValue, b: LogValue)
    ensures
        log_value_eq(a, b) == log_value_eq(b, a),
{
}

/// Every value except a NaN float equals itself.
pub proof fn lemma_log_value_eq_reflexive(a: LogValue)
    ensures
        log_value_eq(a, a) <== match a {
            LogValue::F64(x) | LogValue::Altitude(x) | LogValue::ScaledI16(x) | LogValue::ScaledI32(x) => !f64_bits_is_nan(x),
            _ => true,
        },
{
}

} // verus!
