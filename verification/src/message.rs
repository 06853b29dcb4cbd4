use vstd::prelude::*;
use vstd::string::*;

use crate::format::{
    field_type, has_timestamp, spec_field_type, timestamp_type, FieldType, FormatField, LogFormat,
    ParseError,
};
use crate::text::{decimal, decimal_string};

verus! {

/// Supplies the schema interpretation for a DataFlash message.
pub trait ArduPilotMessage {
    fn format(
        &self,
        id: u8,
        name: &str,
        encoding: &str,
        labels: &[String],
    ) -> Result<LogFormat, ParseError>;
}

/// The stock interpretation: one field per format code, named by the label
/// at its position or `field_<index>` where labels run out.
pub struct DefaultArduPilotMessage;

pub open spec fn label_at(labels: Seq<String>, i: int) -> Option<Seq<char>> {
    if 0 <= i < labels.len() {
        Some(labels[i]@)
    } else {
        None
    }
}

pub open spec fn default_field_name(labels: Seq<String>, i: int) -> Seq<char> {
    if 0 <= i < labels.len() {
        labels[i]@
    } else {
        "field_"@ + decimal(i as nat)
    }
}

/// Whether every format code of `encoding` up to `n` is known.
pub open spec fn codes_known(encoding: Seq<char>, labels: Seq<String>, n: int) -> bool {
    forall|i: int| 0 <= i < n ==> (#[trigger] spec_field_type(encoding[i], label_at(labels, i))) is Some
}

/// The format built from a message's id, name, encoding and labels.
pub open spec fn is_default_format(
    f: LogFormat,
    id: u8,
    name: Seq<char>,
    encoding: Seq<char>,
    labels: Seq<String>,
) -> bool {
    &&& f.id == id
    &&& f.name@ == name
    &&& (f.timestamp is Some <==> has_timestamp(encoding, labels))
    &&& (f.timestamp matches Some(d) ==> d@ == 0)
    &&& f.fields@.len() == encoding.len()
    &&& forall|i: int|
        0 <= i < encoding.len() ==> (#[trigger] f.fields@[i]).name@ == default_field_name(labels, i)
            && spec_field_type(encoding[i], label_at(labels, i)) == Some(f.fields@[i].ty)
}

fn field_name(labels: &[String], index: usize) -> (res: String)
    ensures
        res@ == default_field_name(labels@, index as int),
{
    if index < labels.len() {
        labels[index].clone()
    } else {
        let mut name = String::from_str("field_");
        let digits = decimal_string(index as u64);
        name.append(digits.as_str());
        name
    }
}

impl ArduPilotMessage for DefaultArduPilotMessage {
    /// Builds the format of a message type; fails on the first unknown
    /// format code.
    fn format(
        &self,
        id: u8,
        name: &str,
        encoding: &str,
        labels: &[String],
    ) -> (res: Result<LogFormat, ParseError>)
        ensures
            match res {
                Ok(f) => codes_known(encoding@, labels@, encoding@.len() as int) && is_default_format(
                    f,
                    id,
                    name@,
                    encoding@,
                    labels@,
                ),
                Err(e) => exists|i: int|
                    0 <= i < encoding@.len() && codes_known(encoding@, labels@, i)
                        && spec_field_type(encoding@[i], label_at(labels@, i)) is None && (e matches ParseError::InvalidFormat {
                        format,
                        ..
                    } && format@ == seq![encoding@[i]]),
            },
    {
        let n = encoding.unicode_len();
        let mut fields: Vec<FormatField> = Vec::new();
        let mut index: usize = 0;
        while index < n
            invariant
                n == encoding@.len(),
                index <= n,
                fields@.len() == index,
                codes_known(encoding@, labels@, index as int),
                forall|i: int|
                    0 <= i < index ==> (#[trigger] fields@[i]).name@ == default_field_name(labels@, i)
                        && spec_field_type(encoding@[i], label_at(labels@, i)) == Some(fields@[i].ty),
            decreases n - index,
        {
            let code = encoding.get_char(index);
            let label: Option<&str> = if index < labels.len() {
                Some(labels[index].as_str())
            } else {
                None
            };
            let ty = match field_type(code, label) {
                Ok(t) => t,
                Err(e) => {
                    assert(spec_field_type(encoding@[index as int], label_at(labels@, index as int)) is None);
                    return Err(e);
                },
            };
            fields.push(FormatField { name: field_name(labels, index), ty });
            index = index + 1;
        }
        let timestamp = timestamp_type(encoding, labels);
        Ok(LogFormat { id, name: name.to_owned(), timestamp, fields })
    }
}

} // verus!
