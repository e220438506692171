//! Serial types: the type and the size of each value of a record.

use vstd::prelude::*;
use vstd::slice::{slice_subrange, slice_to_vec};
use crate::bytes::{
    be_signed, be_unsigned, lemma_be_unsigned_bound, lemma_byte_range_values, read_signed,
    read_unsigned,
};
use crate::error::Error;
use crate::value::{Value, ValueView};

verus! {

/// The tag that a record header holds for each of its values: it gives the
/// value's type and the number of bytes that the value takes.
#[derive(Debug, Clone, Copy, PartialEq, Eq)]
pub enum SerialType {
    Null,
    Int8,
    Int16,
    Int24,
    Int32,
    Int48,
    Int64,
    Float64,
    IntZero,
    IntOne,
    Blob { length: u64 },
    Text { length: u64 },
}

/// The serial type that the code `code` stands for; `None` for the two
/// reserved codes, 10 and 11.
pub open spec fn serial_type_of(code: nat) -> Option<SerialType> {
    if code == 0 {
        Some(SerialType::Null)
    } else if code == 1 {
        Some(SerialType::Int8)
    } else if code == 2 {
        Some(SerialType::Int16)
    } else if code == 3 {
        Some(SerialType::Int24)
    } else if code == 4 {
        Some(SerialType::Int32)
    } else if code == 5 {
        Some(SerialType::Int48)
    } else if code == 6 {
        Some(SerialType::Int64)
    } else if code == 7 {
        Some(SerialType::Float64)
    } else if code == 8 {
        Some(SerialType::IntZero)
    } else if code == 9 {
        Some(SerialType::IntOne)
    } else if code == 10 || code == 11 {
        None
    } else if code % 2 == 0 {
        Some(SerialType::Blob { length: ((code - 12) / 2) as u64 })
    } else {
        Some(SerialType::Text { length: ((code - 13) / 2) as u64 })
    }
}

impl SerialType {
    /// The number of bytes that a value of this type takes in a record.
    pub open spec fn content_size(self) -> nat {
        match self {
            SerialType::Null => 0,
            SerialType::Int8 => 1,
            SerialType::Int16 => 2,
            SerialType::Int24 => 3,
            SerialType::Int32 => 4,
            SerialType::Int48 => 6,
            SerialType::Int64 => 8,
            SerialType::Float64 => 8,
            SerialType::IntZero => 0,
            SerialType::IntOne => 0,
            SerialType::Blob { length } => length as nat,
            SerialType::Text { length } => length as nat,
        }
    }

    /// The serial type with the code `code`. Fails with `UnknownSerialType`
    /// for the reserved codes 10 and 11, and for no other.
    pub fn from_code(code: u64) -> (result: Result<SerialType, Error>)
        ensures
            match serial_type_of(code as nat) {
                Some(serial_type) => result == Ok::<SerialType, Error>(serial_type),
                None => result == Err::<SerialType, Error>(Error::UnknownSerialType),
            },
    {
        if code == 0 {
            Ok(SerialType::Null)
        } else if code == 1 {
            Ok(SerialType::Int8)
        } else if code == 2 {
            Ok(SerialType::Int16)
        } else if code == 3 {
            Ok(SerialType::Int24)
        } else if code == 4 {
            Ok(SerialType::Int32)
        } else if code == 5 {
            Ok(SerialType::Int48)
        } else if code == 6 {
            Ok(SerialType::Int64)
        } else if code == 7 {
            Ok(SerialType::Float64)
        } else if code == 8 {
            Ok(SerialType::IntZero)
        } else if code == 9 {
            Ok(SerialType::IntOne)
        } else if code == 10 || code == 11 {
            Err(Error::UnknownSerialType)
        } else if code % 2 == 0 {
            Ok(SerialType::Blob { length: (code - 12) / 2 })
        } else {
            Ok(SerialType::Text { length: (code - 13) / 2 })
        }
    }

    /// The number of bytes that a value of this type takes in a record.
    pub fn size(&self) -> (size: u64)
        ensures
            size == self.content_size(),
    {
        match self {
            SerialType::Null => 0,
            SerialType::Int8 => 1,
            SerialType::Int16 => 2,
            SerialType::Int24 => 3,
            SerialType::Int32 => 4,
            SerialType::Int48 => 6,
            SerialType::Int64 => 8,
            SerialType::Float64 => 8,
            SerialType::IntZero => 0,
            SerialType::IntOne => 0,
            SerialType::Blob { length } => *length,
            SerialType::Text { length } => *length,
        }
    }
}

/// The value of type `serial_type` that the bytes `content` spell, where
/// `content` holds as many bytes as the type takes.
pub open spec fn value_of(serial_type: SerialType, content: Seq<u8>) -> ValueView {
    match serial_type {
        SerialType::Null => ValueView::Null,
        SerialType::Int8 => ValueView::Int8(be_signed(content) as i8),
        SerialType::Int16 => ValueView::Int16(be_signed(content) as i16),
        SerialType::Int24 => ValueView::Int32(be_signed(content) as i32),
        SerialType::Int32 => ValueView::Int32(be_signed(content) as i32),
        SerialType::Int48 => ValueView::Int64(be_signed(content) as i64),
        SerialType::Int64 => ValueView::Int64(be_signed(content) as i64),
        SerialType::Float64 => ValueView::Float64(be_unsigned(content) as u64),
        SerialType::IntZero => ValueView::Bool(false),
        SerialType::IntOne => ValueView::Bool(true),
        SerialType::Blob { length } => ValueView::Blob(content),
        SerialType::Text { length } => ValueView::Text(content),
    }
}

/// Reads a value of type `serial_type` from the start of `data`: the value,
/// and the bytes that follow it. Fails with `MalformedRecord` where `data`
/// holds fewer bytes than the type takes.
pub fn parse_value<'a>(data: &'a [u8], serial_type: &SerialType) -> (result: Result<
    (&'a [u8], Value),
    Error,
>)
    ensures
        data@.len() < serial_type.content_size() ==> result == Err::<(&[u8], Value), Error>(
            Error::MalformedRecord,
        ),
        data@.len() >= serial_type.content_size() ==> (result matches Ok((rest, value))
            && value@ == value_of(
            *serial_type,
            data@.subrange(0, serial_type.content_size() as int),
        ) && rest@ == data@.subrange(serial_type.content_size() as int, data@.len() as int)),
{
    let size: u64 = serial_type.size();
    if size > data.len() as u64 {
        return Err(Error::MalformedRecord);
    }
    let n: usize = size as usize;
    let rest = slice_subrange(data, n, data.len());
    proof {
        lemma_byte_range_values();
        lemma_be_unsigned_bound(data@.subrange(0, n as int));
    }
    let value = match serial_type {
        SerialType::Null => Value::Null,
        SerialType::Int8 => Value::Int8(read_signed(data, 0, 1) as i8),
        SerialType::Int16 => Value::Int16(read_signed(data, 0, 2) as i16),
        SerialType::Int24 => Value::Int32(read_signed(data, 0, 3) as i32),
        SerialType::Int32 => Value::Int32(read_signed(data, 0, 4) as i32),
        SerialType::Int48 => Value::Int64(read_signed(data, 0, 6)),
        SerialType::Int64 => Value::Int64(read_signed(data, 0, 8)),
        SerialType::Float64 => Value::Float64(read_unsigned(data, 0, 8)),
        SerialType::IntZero => Value::Bool(false),
        SerialType::IntOne => Value::Bool(true),
        SerialType::Blob { length } => Value::Blob(slice_to_vec(slice_subrange(data, 0, n))),
        SerialType::Text { length } => Value::Text(slice_to_vec(slice_subrange(data, 0, n))),
    };
    Ok((rest, value))
}

} // verus!
