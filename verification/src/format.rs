use vstd::prelude::*;
use vstd::slice::slice_subrange;
use vstd::string::*;

use crate::text::{lossy_utf8, push_char, str_eq, trim_end, trim_end_string, utf8_lossy};
use crate::time::Duration;
use crate::value::FieldValue;

verus! {

/// How a field of a DataFlash message is laid out in the payload.
#[derive(PartialEq, Eq, Structural)]
pub enum FieldType {
    I8,
    U8,
    I16,
    U16,
    I32,
    U32,
    I64,
    U64,
    F32,
    F64,
    Latitude,
    Longitude,
    FlightMode,
    /// A 16-bit integer `raw` that stands for `raw / scale`.
    ScaledI16(u32),
    /// A 32-bit integer `raw` that stands for `raw / scale`.
    ScaledI32(u32),
    /// A NUL-padded text of the given byte length.
    String(usize),
}

/// One field of a message format.
pub struct FormatField {
    pub name: String,
    pub ty: FieldType,
}

/// The schema of a DataFlash message type.
pub struct LogFormat {
    pub id: u8,
    pub name: String,
    pub timestamp: Option<Duration>,
    pub fields: Vec<FormatField>,
}

/// A value decoded from a payload.
pub enum RawValue {
    I8(i8),
    U8(u8),
    I16(i16),
    U16(u16),
    I32(i32),
    U32(u32),
    I64(i64),
    U64(u64),
    /// Bit pattern of an `f32`.
    F32(u32),
    /// Bit pattern of an `f64`.
    F64(u64),
    Latitude(i32),
    Longitude(i32),
    FlightMode(u8),
    /// `raw / scale`.
    Scaled { raw: i64, scale: u32 },
    String(String),
}

/// A named decoded value.
pub struct RawField {
    pub name: String,
    pub value: RawValue,
}

/// Errors of log parsing.
pub enum ParseError {
    /// A field's value does not have the kind its label calls for.
    InvalidLabelType { label: String, value: FieldValue },
    /// An unknown format code.
    InvalidFormat { message: String, format: String },
    /// The payload ends before the format does.
    UnexpectedEof,
    /// The underlying reader failed.
    Io,
}

pub open spec fn label_view(label: Option<&str>) -> Option<Seq<char>> {
    match label {
        Some(l) => Some(l@),
        None => None,
    }
}

/// The field type that a format code (and, for `L`, the field's label) stands for.
pub open spec fn spec_field_type(code: char, label: Option<Seq<char>>) -> Option<FieldType> {
    if code == 'b' {
        Some(FieldType::I8)
    } else if code == 'B' {
        Some(FieldType::U8)
    } else if code == 'h' {
        Some(FieldType::I16)
    } else if code == 'H' {
        Some(FieldType::U16)
    } else if code == 'i' {
        Some(FieldType::I32)
    } else if code == 'I' {
        Some(FieldType::U32)
    } else if code == 'q' {
        Some(FieldType::I64)
    } else if code == 'Q' {
        Some(FieldType::U64)
    } else if code == 'f' {
        Some(FieldType::F32)
    } else if code == 'd' {
        Some(FieldType::F64)
    } else if code == 'L' {
        if label == Some("Lat"@) || label == Some("Latitude"@) {
            Some(FieldType::Latitude)
        } else if label == Some("Lng"@) || label == Some("Lon"@) || label == Some("Longitude"@) {
            Some(FieldType::Longitude)
        } else {
            Some(FieldType::I32)
        }
    } else if code == 'M' {
        Some(FieldType::FlightMode)
    } else if code == 'c' || code == 'C' {
        Some(FieldType::ScaledI16(100))
    } else if code == 'e' || code == 'E' {
        Some(FieldType::ScaledI32(100))
    } else if code == 'n' {
        Some(FieldType::String(4))
    } else if code == 'N' {
        Some(FieldType::String(16))
    } else if code == 'Z' {
        Some(FieldType::String(64))
    } else {
        None
    }
}

fn label_is(label: Option<&str>, text: &str) -> (res: bool)
    ensures
        res == (label_view(label) == Some(text@)),
{
    match label {
        Some(l) => str_eq(l, text),
        None => false,
    }
}

/// Interprets a format code; an unknown code is an `InvalidFormat` error
/// that carries the code as its format text.
pub fn field_type(code: char, label: Option<&str>) -> (res: Result<FieldType, ParseError>)
    ensures
        match res {
            Ok(t) => spec_field_type(code, label_view(label)) == Some(t),
            Err(e) => spec_field_type(code, label_view(label)) is None && (e matches ParseError::InvalidFormat {
                message,
                format,
            } && message@ == Seq::<char>::empty() && format@ == seq![code]),
        },
{
    let t = match code {
        'b' => FieldType::I8,
        'B' => FieldType::U8,
        'h' => FieldType::I16,
        'H' => FieldType::U16,
        'i' => FieldType::I32,
        'I' => FieldType::U32,
        'q' => FieldType::I64,
        'Q' => FieldType::U64,
        'f' => FieldType::F32,
        'd' => FieldType::F64,
        'L' => {
            if label_is(label, "Lat") || label_is(label, "Latitude") {
                FieldType::Latitude
            } else if label_is(label, "Lng") || label_is(label, "Lon") || label_is(label, "Longitude") {
                FieldType::Longitude
            } else {
                FieldType::I32
            }
        },
        'M' => FieldType::FlightMode,
        'c' | 'C' => FieldType::ScaledI16(100),
        'e' | 'E' => FieldType::ScaledI32(100),
        'n' => FieldType::String(4),
        'N' => FieldType::String(16),
        'Z' => FieldType::String(64),
        _ => {
            let mut format = String::new();
            push_char(&mut format, code);
            return Err(ParseError::InvalidFormat { message: String::new(), format });
        },
    };
    Ok(t)
}

/// Whether a message with this encoding and these labels carries a
/// timestamp: a `Q` first code, or an `I` first code labelled `TimeUS` or
/// `TimeMS`.
pub open spec fn has_timestamp(encoding: Seq<char>, labels: Seq<String>) -> bool {
    encoding.len() > 0 && (encoding[0] == 'Q' || (encoding[0] == 'I' && labels.len() > 0 && (labels[0]@
        == "TimeUS"@ || labels[0]@ == "TimeMS"@)))
}

/// The timestamp slot of a message format: present (and zero until a
/// message fills it) exactly when the format carries a timestamp.
pub fn timestamp_type(encoding: &str, labels: &[String]) -> (res: Option<Duration>)
    ensures
        res is Some <==> has_timestamp(encoding@, labels@),
        res matches Some(d) ==> d@ == 0,
{
    if encoding.unicode_len() == 0 {
        return None;
    }
    let first = encoding.get_char(0);
    if first == 'Q' {
        return Some(Duration::from_micros(0));
    }
    if first == 'I' && labels.len() > 0 {
        if str_eq(labels[0].as_str(), "TimeUS") {
            return Some(Duration::from_micros(0));
        }
        if str_eq(labels[0].as_str(), "TimeMS") {
            return Some(Duration::from_millis(0));
        }
    }
    None
}

/// The number of payload bytes a field type occupies.
pub open spec fn spec_field_size(t: FieldType) -> nat {
    match t {
        FieldType::I8 | FieldType::U8 | FieldType::FlightMode => 1,
        FieldType::I16 | FieldType::U16 | FieldType::ScaledI16(_) => 2,
        FieldType::I32 | FieldType::U32 | FieldType::F32 | FieldType::Latitude | FieldType::Longitude
        | FieldType::ScaledI32(_) => 4,
        FieldType::I64 | FieldType::U64 | FieldType::F64 => 8,
        FieldType::String(length) => length as nat,
    }
}

pub fn field_size(field_type: &FieldType) -> (res: usize)
    ensures
        res == spec_field_size(*field_type),
{
    match field_type {
        FieldType::I8 | FieldType::U8 | FieldType::FlightMode => 1,
        FieldType::I16 | FieldType::U16 | FieldType::ScaledI16(_) => 2,
        FieldType::I32 | FieldType::U32 | FieldType::F32 | FieldType::Latitude | FieldType::Longitude
        | FieldType::ScaledI32(_) => 4,
        FieldType::I64 | FieldType::U64 | FieldType::F64 => 8,
        FieldType::String(length) => *length,
    }
}

/// The payload length of a format: the sum of its field sizes.
pub open spec fn sum_sizes(fields: Seq<FormatField>) -> nat
    decreases fields.len(),
{
    if fields.len() == 0 {
        0
    } else {
        sum_sizes(fields.drop_last()) + spec_field_size(fields.last().ty)
    }
}

pub fn payload_size(fields: &[FormatField]) -> (res: usize)
    requires
        sum_sizes(fields@) <= usize::MAX,
    ensures
        res == sum_sizes(fields@),
{
    let mut total: usize = 0;
    let mut i: usize = 0;
    while i < fields.len()
        invariant
            i <= fields@.len(),
            total == sum_sizes(fields@.take(i as int)),
            sum_sizes(fields@) <= usize::MAX,
        decreases fields@.len() - i,
    {
        proof {
            assert(fields@.take(i + 1).drop_last() =~= fields@.take(i as int));
            lemma_sum_sizes_prefix(fields@, i as int + 1);
        }
        total = total + field_size(&fields[i].ty);
        i = i + 1;
    }
    proof {
        assert(fields@.take(fields@.len() as int) =~= fields@);
    }
    total
}

/// A prefix of a format takes no more bytes than the whole.
pub proof fn lemma_sum_sizes_prefix(fields: Seq<FormatField>, k: int)
    requires
        0 <= k <= fields.len(),
    ensures
        sum_sizes(fields.take(k)) <= sum_sizes(fields),
    decreases fields.len(),
{
    if k < fields.len() {
        assert(fields.drop_last().take(k) =~= fields.take(k));
        lemma_sum_sizes_prefix(fields.drop_last(), k);
    } else {
        assert(fields.take(k) =~= fields);
    }
}

/// The size of a format is additive: the payload of two formats one after
/// the other takes the bytes of both, and an empty format takes none.
pub proof fn lemma_sum_sizes_concat(a: Seq<FormatField>, b: Seq<FormatField>)
    ensures
        sum_sizes(Seq::<FormatField>::empty()) == 0,
        sum_sizes(a + b) == sum_sizes(a) + sum_sizes(b),
    decreases b.len(),
{
    if b.len() > 0 {
        assert((a + b).drop_last() =~= a + b.drop_last());
        assert((a + b).last() == b.last());
        lemma_sum_sizes_concat(a, b.drop_last());
    } else {
        assert(a + b =~= a);
    }
}

/// The prefix of `bytes` before the first NUL byte (all of it when there is none).
pub open spec fn until_nul(bytes: Seq<u8>) -> Seq<u8>
    decreases bytes.len(),
{
    if bytes.len() == 0 || bytes[0] == 0 {
        Seq::empty()
    } else {
        seq![bytes[0]] + until_nul(bytes.drop_first())
    }
}

proof fn lemma_until_nul(bytes: Seq<u8>, k: int)
    requires
        0 <= k <= bytes.len(),
        forall|j: int| 0 <= j < k ==> bytes[j] != 0,
        k < bytes.len() ==> bytes[k] == 0,
    ensures
        until_nul(bytes) == bytes.take(k),
    decreases k,
{
    if k > 0 {
        lemma_until_nul(bytes.drop_first(), k - 1);
        assert(bytes.take(k) =~= seq![bytes[0]] + bytes.drop_first().take(k - 1));
    } else {
        assert(bytes.take(0) =~= Seq::<u8>::empty());
    }
}

/// The text of a NUL-padded string field: the bytes before the first NUL,
/// decoded leniently as UTF-8, with trailing white space removed.
pub fn fixed_string(bytes: &[u8]) -> (res: String)
    ensures
        res@ == trim_end(lossy_utf8(until_nul(bytes@))),
{
    let mut end: usize = 0;
    while end < bytes.len() && bytes[end] != 0
        invariant
            end <= bytes@.len(),
            forall|j: int| 0 <= j < end ==> bytes@[j] != 0,
        decreases bytes@.len() - end,
    {
        end = end + 1;
    }
    proof {
        lemma_until_nul(bytes@, end as int);
    }
    let text = slice_subrange(bytes, 0, end);
    assert(text@ =~= bytes@.take(end as int));
    let decoded = utf8_lossy(text);
    trim_end_string(decoded.as_str())
}

/// The little-endian unsigned value of `bytes`.
pub open spec fn le_value(bytes: Seq<u8>) -> nat
    decreases bytes.len(),
{
    if bytes.len() == 0 {
        0
    } else {
        (bytes[0] + 256 * le_value(bytes.drop_first())) as nat
    }
}

/// The two's-complement reading of `u`, whose sign bit is worth `half`.
pub open spec fn signed_of(u: int, half: int) -> int {
    if u >= half {
        u - 2 * half
    } else {
        u
    }
}

/// Whether `bytes` has a length `decode_value` accepts for `t`: at least one
/// (two) byte for the one (two) byte types, exactly the size for the wider
/// integer and float types, anything for text.
pub open spec fn decodable(t: FieldType, len: nat) -> bool {
    match t {
        FieldType::I8 | FieldType::U8 | FieldType::FlightMode => len >= 1,
        FieldType::I16 | FieldType::U16 | FieldType::ScaledI16(_) => len >= 2,
        FieldType::String(_) => true,
        _ => len == spec_field_size(t),
    }
}

/// `v` is the value that the bytes of a field of type `t` encode.
pub open spec fn decodes_to(t: FieldType, bytes: Seq<u8>, v: RawValue) -> bool {
    match t {
        FieldType::I8 => v == RawValue::I8(signed_of(bytes[0] as int, 0x80) as i8),
        FieldType::U8 => v == RawValue::U8(bytes[0]),
        FieldType::I16 => v == RawValue::I16(signed_of(le_value(bytes.take(2)) as int, 0x8000) as i16),
        FieldType::U16 => v == RawValue::U16(le_value(bytes.take(2)) as u16),
        FieldType::I32 => v == RawValue::I32(signed_of(le_value(bytes) as int, 0x8000_0000) as i32),
        FieldType::U32 => v == RawValue::U32(le_value(bytes) as u32),
        FieldType::I64 => v == RawValue::I64(
            signed_of(le_value(bytes) as int, 0x8000_0000_0000_0000) as i64,
        ),
        FieldType::U64 => v == RawValue::U64(le_value(bytes) as u64),
        FieldType::F32 => v == RawValue::F32(le_value(bytes) as u32),
        FieldType::F64 => v == RawValue::F64(le_value(bytes) as u64),
        FieldType::Latitude => v == RawValue::Latitude(signed_of(le_value(bytes) as int, 0x8000_0000) as i32),
        FieldType::Longitude => v == RawValue::Longitude(
            signed_of(le_value(bytes) as int, 0x8000_0000) as i32,
        ),
        FieldType::FlightMode => v == RawValue::FlightMode(bytes[0]),
        FieldType::ScaledI16(scale) => v == RawValue::Scaled {
            raw: signed_of(le_value(bytes.take(2)) as int, 0x8000) as i64,
            scale,
        },
        FieldType::ScaledI32(scale) => v == RawValue::Scaled {
            raw: signed_of(le_value(bytes) as int, 0x8000_0000) as i64,
            scale,
        },
        FieldType::String(_) => v matches RawValue::String(text) && text@ == trim_end(
            lossy_utf8(until_nul(bytes)),
        ),
    }
}

/// The DataFlash format codes: `b`, `h`, `i`, `q` are signed integers of
/// one, two, four and eight bytes and `B`, `H`, `I`, `Q` their unsigned
/// counterparts; `f` and `d` are floats; `L` is a coordinate for the labels
/// that name one and a signed 32-bit integer otherwise; `M` is a flight
/// mode; `c`/`C` and `e`/`E` are 16- and 32-bit integers scaled by 100;
/// `n`, `N`, `Z` are texts of 4, 16 and 64 bytes; every other code is
/// unknown.
pub proof fn lemma_field_type_codes(label: Option<Seq<char>>, code: char)
    ensures
        spec_field_type('b', label) == Some(FieldType::I8),
        spec_field_type('B', label) == Some(FieldType::U8),
        spec_field_type('h', label) == Some(FieldType::I16),
        spec_field_type('H', label) == Some(FieldType::U16),
        spec_field_type('i', label) == Some(FieldType::I32),
        spec_field_type('I', label) == Some(FieldType::U32),
        spec_field_type('q', label) == Some(FieldType::I64),
        spec_field_type('Q', label) == Some(FieldType::U64),
        spec_field_type('f', label) == Some(FieldType::F32),
        spec_field_type('d', label) == Some(FieldType::F64),
        spec_field_type('M', label) == Some(FieldType::FlightMode),
        spec_field_type('c', label) == Some(FieldType::ScaledI16(100)),
        spec_field_type('C', label) == Some(FieldType::ScaledI16(100)),
        spec_field_type('e', label) == Some(FieldType::ScaledI32(100)),
        spec_field_type('E', label) == Some(FieldType::ScaledI32(100)),
        spec_field_type('n', label) == Some(FieldType::String(4)),
        spec_field_type('N', label) == Some(FieldType::String(16)),
        spec_field_type('Z', label) == Some(FieldType::String(64)),
        (label == Some("Lat"@) || label == Some("Latitude"@)) ==> spec_field_type('L', label) == Some(
            FieldType::Latitude,
        ),
        (label == Some("Lng"@) || label == Some("Lon"@) || label == Some("Longitude"@)) ==> spec_field_type(
            'L',
            label,
        ) == Some(FieldType::Longitude),
        !(label == Some("Lat"@) || label == Some("Latitude"@) || label == Some("Lng"@) || label == Some("Lon"@)
            || label == Some("Longitude"@)) ==> spec_field_type('L', label) == Some(FieldType::I32),
        !seq!['b', 'B', 'h', 'H', 'i', 'I', 'q', 'Q', 'f', 'd', 'L', 'M', 'c', 'C', 'e', 'E', 'n', 'N', 'Z'].contains(
            code,
        ) ==> spec_field_type(code, label) is None,
{
    reveal_strlit("Lat");
    reveal_strlit("Latitude");
    reveal_strlit("Lng");
    reveal_strlit("Lon");
    reveal_strlit("Longitude");
    assert("Lng"@[1] != "Lat"@[1] && "Lng"@[1] != "Latitude"@[1]);
    assert("Lon"@[1] != "Lat"@[1] && "Lon"@[1] != "Latitude"@[1]);
    assert("Longitude"@[1] != "Lat"@[1] && "Longitude"@[1] != "Latitude"@[1]);
    let codes = seq!['b', 'B', 'h', 'H', 'i', 'I', 'q', 'Q', 'f', 'd', 'L', 'M', 'c', 'C', 'e', 'E', 'n', 'N', 'Z'];
    if spec_field_type(code, label) is Some {
        let k: int = if code == 'b' { 0 } else if code == 'B' { 1 } else if code == 'h' { 2 } else if code == 'H' { 3 }
            else if code == 'i' { 4 } else if code == 'I' { 5 } else if code == 'q' { 6 } else if code == 'Q' { 7 }
            else if code == 'f' { 8 } else if code == 'd' { 9 } else if code == 'L' { 10 } else if code == 'M' { 11 }
            else if code == 'c' { 12 } else if code == 'C' { 13 } else if code == 'e' { 14 } else if code == 'E' { 15 }
            else if code == 'n' { 16 } else if code == 'N' { 17 } else { 18 };
        assert(codes[k] == code);
    }
}

/// Lower-case one- and two-byte codes read their bytes as two's complement
/// integers and upper-case ones as unsigned integers, little-endian: for
/// `b0`, `b1` the two-byte value is `b0 + 256 * b1`, less `65536` for `h`
/// when the top bit is set.
pub proof fn lemma_small_integer_codes_signedness(
    label: Option<Seq<char>>,
    b0: u8,
    b1: u8,
    v: RawValue,
)
    ensures
        decodes_to(spec_field_type('H', label).unwrap(), seq![b0, b1], v) ==> v == RawValue::U16(
            (b0 + 256 * b1) as u16,
        ),
        decodes_to(spec_field_type('h', label).unwrap(), seq![b0, b1], v) ==> v == RawValue::I16(
            (if b1 >= 128 { b0 + 256 * b1 - 65536 } else { b0 + 256 * b1 }) as i16,
        ),
        decodes_to(spec_field_type('B', label).unwrap(), seq![b0], v) ==> v == RawValue::U8(b0),
        decodes_to(spec_field_type('b', label).unwrap(), seq![b0], v) ==> v == RawValue::I8(
            (if b0 >= 128 { b0 - 256 } else { b0 as int }) as i8,
        ),
{
    let s = seq![b0, b1];
    assert(s.take(2) =~= s);
    assert(s.drop_first() =~= seq![b1]);
    assert(seq![b1].drop_first() =~= Seq::<u8>::empty());
    assert(le_value(Seq::<u8>::empty()) == 0);
    assert(le_value(seq![b1]) == b1);
    assert(le_value(s) == b0 + 256 * b1);
}

fn le_u16(bytes: &[u8]) -> (res: u16)
    requires
        bytes@.len() >= 2,
    ensures
        res == le_value(bytes@.take(2)),
{
    proof {
        let t = bytes@.take(2);
        assert(t.drop_first().drop_first().len() == 0);
        assert(le_value(t.drop_first()) == t[1] + 256 * le_value(t.drop_first().drop_first()));
    }
    bytes[0] as u16 + bytes[1] as u16 * 256
}

fn le_u32(bytes: &[u8]) -> (res: u32)
    requires
        bytes@.len() == 4,
    ensures
        res == le_value(bytes@),
{
    proof {
        let t = bytes@;
        let t1 = t.drop_first();
        let t2 = t1.drop_first();
        let t3 = t2.drop_first();
        assert(t3.drop_first().len() == 0);
        assert(le_value(t3) == t3[0] + 256 * le_value(t3.drop_first()));
        assert(le_value(t2) == t2[0] + 256 * le_value(t3));
        assert(le_value(t1) == t1[0] + 256 * le_value(t2));
    }
    bytes[0] as u32 + bytes[1] as u32 * 0x100 + bytes[2] as u32 * 0x1_0000 + bytes[3] as u32 * 0x100_0000
}

fn le_u64(bytes: &[u8]) -> (res: u64)
    requires
        bytes@.len() == 8,
    ensures
        res == le_value(bytes@),
{
    proof {
        let t = bytes@;
        let t1 = t.drop_first();
        let t2 = t1.drop_first();
        let t3 = t2.drop_first();
        let t4 = t3.drop_first();
        let t5 = t4.drop_first();
        let t6 = t5.drop_first();
        let t7 = t6.drop_first();
        assert(t7.drop_first().len() == 0);
        assert(le_value(t7) == t7[0] + 256 * le_value(t7.drop_first()));
        assert(le_value(t6) == t6[0] + 256 * le_value(t7));
        assert(le_value(t5) == t5[0] + 256 * le_value(t6));
        assert(le_value(t4) == t4[0] + 256 * le_value(t5));
        assert(le_value(t3) == t3[0] + 256 * le_value(t4));
        assert(le_value(t2) == t2[0] + 256 * le_value(t3));
        assert(le_value(t1) == t1[0] + 256 * le_value(t2));
    }
    bytes[0] as u64 + bytes[1] as u64 * 0x100 + bytes[2] as u64 * 0x1_0000 + bytes[3] as u64
        * 0x100_0000 + bytes[4] as u64 * 0x1_0000_0000 + bytes[5] as u64 * 0x100_0000_0000
        + bytes[6] as u64 * 0x1_0000_0000_0000 + bytes[7] as u64 * 0x100_0000_0000_0000
}

fn signed8(u: u8) -> (res: i8)
    ensures
        res == signed_of(u as int, 0x80),
{
    if u >= 0x80 {
        (u as i16 - 0x100) as i8
    } else {
        u as i8
    }
}

fn signed16(u: u16) -> (res: i16)
    ensures
        res == signed_of(u as int, 0x8000),
{
    if u >= 0x8000 {
        (u as i32 - 0x1_0000) as i16
    } else {
        u as i16
    }
}

fn signed32(u: u32) -> (res: i32)
    ensures
        res == signed_of(u as int, 0x8000_0000),
{
    if u >= 0x8000_0000 {
        (u as i64 - 0x1_0000_0000) as i32
    } else {
        u as i32
    }
}

fn signed64(u: u64) -> (res: i64)
    ensures
        res == signed_of(u as int, 0x8000_0000_0000_0000),
{
    if u >= 0x8000_0000_0000_0000 {
        (u as i128 - 0x1_0000_0000_0000_0000) as i64
    } else {
        u as i64
    }
}

/// Decodes the bytes of one field.
pub fn decode_value(field_type: &FieldType, bytes: &[u8]) -> (res: RawValue)
    requires
        decodable(*field_type, bytes@.len()),
    ensures
        decodes_to(*field_type, bytes@, res),
{
    match field_type {
        FieldType::I8 => RawValue::I8(signed8(bytes[0])),
        FieldType::U8 => RawValue::U8(bytes[0]),
        FieldType::I16 => RawValue::I16(signed16(le_u16(bytes))),
        FieldType::U16 => RawValue::U16(le_u16(bytes)),
        FieldType::I32 => RawValue::I32(signed32(le_u32(bytes))),
        FieldType::U32 => RawValue::U32(le_u32(bytes)),
        FieldType::I64 => RawValue::I64(signed64(le_u64(bytes))),
        FieldType::U64 => RawValue::U64(le_u64(bytes)),
        FieldType::F32 => RawValue::F32(le_u32(bytes)),
        FieldType::F64 => RawValue::F64(le_u64(bytes)),
        FieldType::Latitude => RawValue::Latitude(signed32(le_u32(bytes))),
        FieldType::Longitude => RawValue::Longitude(signed32(le_u32(bytes))),
        FieldType::FlightMode => RawValue::FlightMode(bytes[0]),
        FieldType::ScaledI16(scale) => RawValue::Scaled {
            raw: signed16(le_u16(bytes)) as i64,
            scale: *scale,
        },
        FieldType::ScaledI32(scale) => RawValue::Scaled {
            raw: signed32(le_u32(bytes)) as i64,
            scale: *scale,
        },
        FieldType::String(_) => RawValue::String(fixed_string(bytes)),
    }
}

/// Decodes a payload field by field; fails with `UnexpectedEof` exactly
/// when the payload is shorter than the format.
pub fn decode_values(fields: &[FormatField], payload: &[u8]) -> (res: Result<Vec<RawValue>, ParseError>)
    ensures
        match res {
            Ok(values) => {
                &&& sum_sizes(fields@) <= payload@.len()
                &&& values@.len() == fields@.len()
                &&& forall|i: int|
                    0 <= i < fields@.len() ==> decodes_to(
                        fields@[i].ty,
                        payload@.subrange(
                            sum_sizes(fields@.take(i)) as int,
                            sum_sizes(fields@.take(i + 1)) as int,
                        ),
                        #[trigger] values@[i],
                    )
            },
            Err(e) => sum_sizes(fields@) > payload@.len() && e is UnexpectedEof,
        },
{
    let mut values: Vec<RawValue> = Vec::new();
    let mut offset: usize = 0;
    let mut i: usize = 0;
    while i < fields.len()
        invariant
            i <= fields@.len(),
            offset == sum_sizes(fields@.take(i as int)),
            offset <= payload@.len(),
            values@.len() == i,
            forall|k: int|
                0 <= k < i ==> decodes_to(
                    fields@[k].ty,
                    payload@.subrange(
                        sum_sizes(fields@.take(k)) as int,
                        sum_sizes(fields@.take(k + 1)) as int,
                    ),
                    #[trigger] values@[k],
                ),
        decreases fields@.len() - i,
    {
        assert(fields@.take(i + 1).drop_last() =~= fields@.take(i as int));
        let size = field_size(&fields[i].ty);
        if size > payload.len() - offset {
            proof {
                lemma_sum_sizes_prefix(fields@, i + 1);
            }
            return Err(ParseError::UnexpectedEof);
        }
        let bytes = slice_subrange(payload, offset, offset + size);
        let value = decode_value(&fields[i].ty, bytes);
        values.push(value);
        offset = offset + size;
        i = i + 1;
    }
    proof {
        assert(fields@.take(fields@.len() as int) =~= fields@);
    }
    Ok(values)
}

impl RawValue {
    /// A copy of the value.
    pub fn duplicate(&self) -> (res: RawValue)
        ensures
            res == *self,
    {
        match self {
            RawValue::I8(v) => RawValue::I8(*v),
            RawValue::U8(v) => RawValue::U8(*v),
            RawValue::I16(v) => RawValue::I16(*v),
            RawValue::U16(v) => RawValue::U16(*v),
            RawValue::I32(v) => RawValue::I32(*v),
            RawValue::U32(v) => RawValue::U32(*v),
            RawValue::I64(v) => RawValue::I64(*v),
            RawValue::U64(v) => RawValue::U64(*v),
            RawValue::F32(v) => RawValue::F32(*v),
            RawValue::F64(v) => RawValue::F64(*v),
            RawValue::Latitude(v) => RawValue::Latitude(*v),
            RawValue::Longitude(v) => RawValue::Longitude(*v),
            RawValue::FlightMode(v) => RawValue::FlightMode(*v),
            RawValue::Scaled { raw, scale } => RawValue::Scaled { raw: *raw, scale: *scale },
            RawValue::String(s) => RawValue::String(s.clone()),
        }
    }
}

/// Pairs format fields with decoded values, up to the shorter of the two.
pub fn parsed_fields(fields: &[FormatField], values: &[RawValue]) -> (res: Vec<RawField>)
    ensures
        res@.len() == if fields@.len() < values@.len() { fields@.len() } else { values@.len() },
        forall|i: int|
            0 <= i < res@.len() ==> (#[trigger] res@[i]).name == fields@[i].name && res@[i].value
                == values@[i],
{
    let n = if fields.len() < values.len() { fields.len() } else { values.len() };
    let mut res: Vec<RawField> = Vec::new();
    let mut i: usize = 0;
    while i < n
        invariant
            n == if fields@.len() < values@.len() { fields@.len() } else { values@.len() },
            i <= n,
            res@.len() == i,
            forall|k: int|
                0 <= k < i ==> (#[trigger] res@[k]).name == fields@[k].name && res@[k].value
                    == values@[k],
        decreases n - i,
    {
        res.push(RawField { name: fields[i].name.clone(), value: values[i].duplicate() });
        i = i + 1;
    }
    res
}

/// Whether `extract_timestamp` can read the timestamp of `format` from a
/// payload of `len` bytes: eight bytes for a `U64` first field, four otherwise.
pub open spec fn timestamp_readable(format: LogFormat, len: nat) -> bool {
    format.timestamp is Some ==> if format.fields@.len() > 0 && format.fields@[0].ty == FieldType::U64 {
        len >= 8
    } else {
        len >= 4
    }
}

/// Reads a message's timestamp: microseconds from a leading `U64` field,
/// otherwise milliseconds from a leading 32-bit field; none when the format
/// has no timestamp.
pub fn extract_timestamp(format: &LogFormat, payload: &[u8]) -> (res: Option<Duration>)
    requires
        timestamp_readable(*format, payload@.len()),
    ensures
        format.timestamp is None ==> res is None,
        format.timestamp is Some ==> res is Some && if format.fields@.len() > 0
            && format.fields@[0].ty == FieldType::U64 {
            res->0@ == le_value(payload@.take(8)) * 1000
        } else {
            res->0@ == le_value(payload@.take(4)) * 1_000_000
        },
{
    match format.timestamp {
        Some(_) => {
            let micros_first = format.fields.len() > 0 && format.fields[0].ty == FieldType::U64;
            if micros_first {
                let micros = le_u64(slice_subrange(payload, 0, 8));
                Some(Duration::from_micros(micros))
            } else {
                let millis = le_u32(slice_subrange(payload, 0, 4));
                Some(Duration::from_millis(millis as u64))
            }
        },
        None => None,
    }
}

} // verus!
