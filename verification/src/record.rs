//! Records: the payload of a cell as serial types and values.

use vstd::prelude::*;
use vstd::slice::slice_subrange;
use crate::error::{after, Error};
use crate::serial_types::{parse_value, serial_type_of, value_of, SerialType};
use crate::value::{Value, ValueView};
use crate::varint::{decode_varint, lemma_decode_bounds, take_varint};

verus! {

/// A decoded record: the serial types of its header, and one value for each.
#[derive(Debug, Clone, PartialEq, Eq)]
pub struct Record {
    pub serial_types: Vec<SerialType>,
    pub values: Vec<Value>,
}

/// What a `Record` holds.
pub struct RecordView {
    pub serial_types: Seq<SerialType>,
    pub values: Seq<ValueView>,
}

/// What each of `values` holds.
pub open spec fn value_views(values: Seq<Value>) -> Seq<ValueView> {
    Seq::new(values.len(), |i: int| values[i]@)
}

impl View for Record {
    type V = RecordView;

    open spec fn view(&self) -> RecordView {
        RecordView { serial_types: self.serial_types@, values: value_views(self.values@) }
    }
}

/// The serial types that `header` spells, one varint each, where `header`
/// is a record header without the varint of its size.
///
/// `MalformedRecord` where a varint runs beyond the end of `header`,
/// `UnknownSerialType` where a code is reserved; the fault that comes first
/// in `header` decides.
pub open spec fn types_of(header: Seq<u8>) -> Result<Seq<SerialType>, Error>
    decreases header.len(),
{
    if header.len() == 0 {
        Ok(Seq::empty())
    } else {
        match decode_varint(header) {
            None => Err(Error::MalformedRecord),
            Some((code, len)) => match serial_type_of(code) {
                None => Err(Error::UnknownSerialType),
                Some(serial_type) => if 1 <= len <= header.len() {
                    after(seq![serial_type], types_of(header.subrange(len as int, header.len() as int)))
                } else {
                    Err(Error::MalformedRecord)
                },
            },
        }
    }
}

/// The number of bytes of `header` that its serial-type varints take, up
/// to the first one that is cut short.
pub open spec fn header_span(header: Seq<u8>) -> nat
    decreases header.len(),
{
    if header.len() == 0 {
        0
    } else {
        match decode_varint(header) {
            Some((code, len)) => if 1 <= len <= header.len() {
                len + header_span(header.subrange(len as int, header.len() as int))
            } else {
                0
            },
            None => 0,
        }
    }
}

/// The values of the types `types` that `body` spells, one after the other.
/// `MalformedRecord` where `body` ends before the last value does.
pub open spec fn values_of(types: Seq<SerialType>, body: Seq<u8>) -> Result<Seq<ValueView>, Error>
    decreases types.len(),
{
    if types.len() == 0 {
        Ok(Seq::empty())
    } else {
        let size = types[0].content_size();
        if body.len() < size {
            Err(Error::MalformedRecord)
        } else {
            after(
                seq![value_of(types[0], body.subrange(0, size as int))],
                values_of(types.subrange(1, types.len() as int), body.subrange(size as int, body.len() as int)),
            )
        }
    }
}

/// The record that `payload` spells.
///
/// A record starts with the varint of its header's size, which counts that
/// varint too. The serial types fill the rest of the header, and the values
/// follow the header in the order of their types. `MalformedRecord` where
/// the size varint is cut short, where the header is shorter than its size
/// varint or longer than the payload, where the serial types do not end
/// with the header, or where the values run beyond the payload.
pub open spec fn record_of(payload: Seq<u8>) -> Result<RecordView, Error> {
    match decode_varint(payload) {
        None => Err(Error::MalformedRecord),
        Some((header_size, len)) => if header_size < len || header_size > payload.len() {
            Err(Error::MalformedRecord)
        } else {
            match types_of(payload.subrange(len as int, header_size as int)) {
                Err(e) => Err(e),
                Ok(types) => match values_of(
                    types,
                    payload.subrange(header_size as int, payload.len() as int),
                ) {
                    Err(e) => Err(e),
                    Ok(values) => Ok(RecordView { serial_types: types, values }),
                },
            }
        }
    }
}

/// Where the serial types of a header can be read, their varints take the
/// whole of the header.
pub proof fn lemma_header_consumed(header: Seq<u8>)
    requires
        types_of(header).is_ok(),
    ensures
        header_span(header) == header.len(),
    decreases header.len(),
{
    if header.len() > 0 {
        let (code, len) = decode_varint(header).unwrap();
        lemma_header_consumed(header.subrange(len as int, header.len() as int));
    }
}

/// In a record that decodes, the size varint and the serial-type varints
/// together take as many bytes as the header's size declares.
pub proof fn lemma_record_header_size(payload: Seq<u8>)
    requires
        record_of(payload).is_ok(),
    ensures
        decode_varint(payload) matches Some((header_size, len)) && len + header_span(
            payload.subrange(len as int, header_size as int),
        ) == header_size,
{
    let (header_size, len) = decode_varint(payload).unwrap();
    lemma_header_consumed(payload.subrange(len as int, header_size as int));
}

/// Decodes the record that `payload` holds.
pub fn parse_record(payload: &[u8]) -> (result: Result<Record, Error>)
    ensures
        match record_of(payload@) {
            Ok(record) => result matches Ok(r) && r@ == record,
            Err(e) => result == Err::<Record, Error>(e),
        },
{
    proof {
        lemma_decode_bounds(payload@);
    }
    let (rest, header_size) = match take_varint(payload) {
        Ok(pair) => pair,
        Err(_) => {
            return Err(Error::MalformedRecord);
        },
    };
    let len: usize = payload.len() - rest.len();
    if header_size < len as u64 || header_size > payload.len() as u64 {
        return Err(Error::MalformedRecord);
    }
    let end: usize = header_size as usize;
    let serial_types = parse_serial_types(slice_subrange(payload, len, end))?;
    let values = parse_values(&serial_types, slice_subrange(payload, end, payload.len()))?;
    Ok(Record { serial_types, values })
}

/// Decodes the serial types of a record header, given without the varint
/// of its size.
pub fn parse_serial_types(header: &[u8]) -> (result: Result<Vec<SerialType>, Error>)
    ensures
        match types_of(header@) {
            Ok(types) => result matches Ok(t) && t@ == types,
            Err(e) => result == Err::<Vec<SerialType>, Error>(e),
        },
{
    let mut types: Vec<SerialType> = Vec::new();
    let mut cursor: &[u8] = header;
    while cursor.len() > 0
        invariant
            types_of(header@) == after(types@, types_of(cursor@)),
        decreases cursor.len(),
    {
        proof {
            lemma_decode_bounds(cursor@);
        }
        let (rest, code) = match take_varint(cursor) {
            Ok(pair) => pair,
            Err(_) => {
                return Err(Error::MalformedRecord);
            },
        };
        let serial_type = SerialType::from_code(code)?;
        proof {
            let tail = types_of(rest@);
            if let Ok(more) = tail {
                assert(types@ + (seq![serial_type] + more) =~= types@.push(serial_type) + more);
            }
        }
        types.push(serial_type);
        cursor = rest;
    }
    proof {
        assert(types@ + Seq::<SerialType>::empty() =~= types@);
    }
    Ok(types)
}

/// Decodes one value for each of `types` from `body`.
pub fn parse_values(types: &Vec<SerialType>, body: &[u8]) -> (result: Result<Vec<Value>, Error>)
    ensures
        match values_of(types@, body@) {
            Ok(values) => result matches Ok(v) && value_views(v@) == values,
            Err(e) => result == Err::<Vec<Value>, Error>(e),
        },
{
    let mut values: Vec<Value> = Vec::new();
    let mut cursor: &[u8] = body;
    let mut i: usize = 0;
    proof {
        assert(types@.subrange(0, types@.len() as int) =~= types@);
        assert(value_views(values@) =~= Seq::<ValueView>::empty());
        let whole = values_of(types@, body@);
        if let Ok(all) = whole {
            assert(Seq::<ValueView>::empty() + all =~= all);
        }
    }
    while i < types.len()
        invariant
            i <= types.len(),
            values_of(types@, body@) == after(
                value_views(values@),
                values_of(types@.subrange(i as int, types@.len() as int), cursor@),
            ),
        decreases types.len() - i,
    {
        let ghost left = types@.subrange(i as int, types@.len() as int);
        let ghost before = value_views(values@);
        proof {
            assert(left[0] == types@[i as int]);
            assert(left.subrange(1, left.len() as int) =~= types@.subrange(
                i + 1,
                types@.len() as int,
            ));
        }
        let (rest, value) = parse_value(cursor, &types[i])?;
        proof {
            let tail = values_of(types@.subrange(i + 1, types@.len() as int), rest@);
            assert(value_views(values@.push(value)) =~= before.push(value@));
            if let Ok(more) = tail {
                assert(before + (seq![value@] + more) =~= before.push(value@) + more);
            }
        }
        values.push(value);
        cursor = rest;
        i = i + 1;
    }
    proof {
        assert(value_views(values@) + Seq::<ValueView>::empty() =~= value_views(values@));
    }
    Ok(values)
}

} // verus!
