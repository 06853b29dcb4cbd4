use vstd::prelude::*;
use vstd::slice::slice_to_vec;
use vstd::string::*;
use vstd::utf8::encode_utf8;

verus! {

/// An element of a JSON array that should hold a byte.
pub enum JsonItem {
    /// A non-negative integer.
    Unsigned(u64),
    /// Anything else.
    NotUnsigned,
}

/// A JSON value that should hold the bytes of a fixed-size byte field.
pub enum JsonBytes {
    /// A string: its UTF-8 bytes.
    Text(String),
    /// An array of byte values.
    Items(Vec<JsonItem>),
    /// Any other JSON value.
    Other,
}

/// Why a JSON value does not give the bytes of a fixed-size field.
#[derive(PartialEq, Eq, Structural)]
pub enum FixedBytesError {
    NonByte,
    OutOfRange,
    TooLong,
    NotBytes,
}

impl FixedBytesError {
    pub fn message(&self) -> (res: &'static str)
        ensures
            res@ == match self {
                FixedBytesError::NonByte => "fixed byte array contains a non-byte value"@,
                FixedBytesError::OutOfRange => "fixed byte array contains an out-of-range value"@,
                FixedBytesError::TooLong => "fixed byte value is too long"@,
                FixedBytesError::NotBytes => "expected fixed bytes or a string"@,
            },
    {
        match self {
            FixedBytesError::NonByte => "fixed byte array contains a non-byte value",
            FixedBytesError::OutOfRange => "fixed byte array contains an out-of-range value",
            FixedBytesError::TooLong => "fixed byte value is too long",
            FixedBytesError::NotBytes => "expected fixed bytes or a string",
        }
    }
}

pub open spec fn is_byte(item: JsonItem) -> bool {
    item matches JsonItem::Unsigned(v) && v <= 255
}

/// The error an array element that is no byte causes.
pub open spec fn item_error(item: JsonItem) -> FixedBytesError {
    match item {
        JsonItem::Unsigned(_) => FixedBytesError::OutOfRange,
        JsonItem::NotUnsigned => FixedBytesError::NonByte,
    }
}

pub open spec fn item_byte(item: JsonItem) -> u8 {
    match item {
        JsonItem::Unsigned(v) => v as u8,
        JsonItem::NotUnsigned => 0,
    }
}

/// `bytes` padded with zeros to length `n`.
pub open spec fn zero_padded(bytes: Seq<u8>, n: nat) -> Seq<u8> {
    Seq::new(n, |i: int| if i < bytes.len() { bytes[i] } else { 0u8 })
}

/// The bytes of the field decoded from `bytes`: too many is an error, fewer
/// are padded with zeros.
pub open spec fn fitted(bytes: Seq<u8>, n: nat, res: Result<Vec<u8>, FixedBytesError>) -> bool {
    if bytes.len() > n {
        res == Err::<Vec<u8>, FixedBytesError>(FixedBytesError::TooLong)
    } else {
        res matches Ok(v) && v@ == zero_padded(bytes, n)
    }
}

fn fit(bytes: &Vec<u8>, n: usize) -> (res: Result<Vec<u8>, FixedBytesError>)
    ensures
        fitted(bytes@, n as nat, res),
{
    if bytes.len() > n {
        return Err(FixedBytesError::TooLong);
    }
    let mut out: Vec<u8> = Vec::new();
    let mut i: usize = 0;
    while i < n
        invariant
            i <= n,
            bytes@.len() <= n,
            out@ == zero_padded(bytes@, n as nat).take(i as int),
        decreases n - i,
    {
        if i < bytes.len() {
            out.push(bytes[i]);
        } else {
            out.push(0u8);
        }
        i = i + 1;
        assert(out@ =~= zero_padded(bytes@, n as nat).take(i as int));
    }
    assert(out@ =~= zero_padded(bytes@, n as nat));
    Ok(out)
}

/// The bytes of a fixed-size byte field of length `n` from its JSON form: a
/// string gives its UTF-8 bytes; an array gives its elements, each of which
/// must be an integer from 0 to 255 (the first one that is not decides the
/// error); anything else is an error. More than `n` bytes is an error;
/// fewer are padded with zeros.
pub fn fixed_bytes(value: JsonBytes, n: usize) -> (res: Result<Vec<u8>, FixedBytesError>)
    ensures
        match value {
            JsonBytes::Text(s) => fitted(encode_utf8(s@), n as nat, res),
            JsonBytes::Items(items) => if forall|i: int| 0 <= i < items@.len() ==> is_byte(#[trigger] items@[i]) {
                fitted(items@.map_values(|x: JsonItem| item_byte(x)), n as nat, res)
            } else {
                exists|i: int|
                    0 <= i < items@.len() && !is_byte(#[trigger] items@[i]) && (forall|j: int|
                        0 <= j < i ==> is_byte(items@[j])) && res == Err::<Vec<u8>, FixedBytesError>(
                        item_error(items@[i]),
                    )
            },
            JsonBytes::Other => res == Err::<Vec<u8>, FixedBytesError>(FixedBytesError::NotBytes),
        },
{
    match value {
        JsonBytes::Text(s) => {
            let bytes = slice_to_vec(s.as_str().as_bytes());
            fit(&bytes, n)
        },
        JsonBytes::Items(items) => {
            let mut bytes: Vec<u8> = Vec::new();
            let mut i: usize = 0;
            while i < items.len()
                invariant
                    value == JsonBytes::Items(items),
                    i <= items@.len(),
                    forall|j: int| 0 <= j < i ==> is_byte(#[trigger] items@[j]),
                    bytes@ == items@.take(i as int).map_values(|x: JsonItem| item_byte(x)),
                decreases items@.len() - i,
            {
                match items[i] {
                    JsonItem::Unsigned(v) => {
                        if v > 255 {
                            assert(!is_byte(items@[i as int]));
                            return Err(FixedBytesError::OutOfRange);
                        }
                        bytes.push(v as u8);
                    },
                    JsonItem::NotUnsigned => {
                        assert(!is_byte(items@[i as int]));
                        return Err(FixedBytesError::NonByte);
                    },
                }
                i = i + 1;
                assert(bytes@ =~= items@.take(i as int).map_values(|x: JsonItem| item_byte(x)));
            }
            assert(items@.take(i as int) =~= items@);
            fit(&bytes, n)
        },
        JsonBytes::Other => Err(FixedBytesError::NotBytes),
    }
}

/// The JSON array that a fixed-size byte field is written as: each byte as
/// a non-negative integer.
pub open spec fn byte_items(bytes: Seq<u8>) -> Seq<JsonItem> {
    bytes.map_values(|b: u8| JsonItem::Unsigned(b as u64))
}

/// A byte field written as its array of bytes reads back unchanged: every
/// element is a byte, and the bytes of a field of that length are exactly
/// the ones written.
pub proof fn lemma_byte_array_round_trip(bytes: Seq<u8>)
    ensures
        forall|i: int| 0 <= i < bytes.len() ==> is_byte(#[trigger] byte_items(bytes)[i]),
        byte_items(bytes).map_values(|x: JsonItem| item_byte(x)) == bytes,
        forall|res: Result<Vec<u8>, FixedBytesError>|
            #[trigger] fitted(bytes, bytes.len(), res) ==> (res matches Ok(
                v,
            ) && v@ == bytes),
{
    assert(byte_items(bytes).map_values(|x: JsonItem| item_byte(x)) =~= bytes);
    assert(zero_padded(bytes, bytes.len()) =~= bytes);
}

} // verus!
