//! The values that records hold, their text and their order.

use vstd::prelude::*;
use vstd::slice::slice_to_vec;
use crate::bytes::same_bytes;

verus! {

/// A value of a record.
///
/// A 24-bit integer is held as `Int32` and a 48-bit one as `Int64`, both
/// sign-extended. `Float64` holds the eight bytes of the IEEE 754 number as
/// an integer. `Text` holds the bytes as the file has them, in the encoding
/// that the database header declares.
#[derive(Debug, Clone, PartialEq, Eq)]
pub enum Value {
    Null,
    Int8(i8),
    Int16(i16),
    Int32(i32),
    Int64(i64),
    Float64(u64),
    Bool(bool),
    Blob(Vec<u8>),
    Text(Vec<u8>),
}

/// What a `Value` holds.
pub enum ValueView {
    Null,
    Int8(i8),
    Int16(i16),
    Int32(i32),
    Int64(i64),
    Float64(u64),
    Bool(bool),
    Blob(Seq<u8>),
    Text(Seq<u8>),
}

impl View for Value {
    type V = ValueView;

    open spec fn view(&self) -> ValueView {
        match self {
            Value::Null => ValueView::Null,
            Value::Int8(i) => ValueView::Int8(*i),
            Value::Int16(i) => ValueView::Int16(*i),
            Value::Int32(i) => ValueView::Int32(*i),
            Value::Int64(i) => ValueView::Int64(*i),
            Value::Float64(bits) => ValueView::Float64(*bits),
            Value::Bool(b) => ValueView::Bool(*b),
            Value::Blob(bytes) => ValueView::Blob(bytes@),
            Value::Text(bytes) => ValueView::Text(bytes@),
        }
    }
}

/// The integer that `value` holds, where it is of an integer type.
pub open spec fn integer_of(value: ValueView) -> Option<int> {
    match value {
        ValueView::Int8(i) => Some(i as int),
        ValueView::Int16(i) => Some(i as int),
        ValueView::Int32(i) => Some(i as int),
        ValueView::Int64(i) => Some(i as int),
        ValueView::Bool(b) => Some(
            if b {
                1
            } else {
                0
            },
        ),
        _ => None,
    }
}

/// The decimal digits of `n` in ASCII, without leading zeros.
pub open spec fn digits(n: nat) -> Seq<u8>
    decreases n,
{
    if n < 10 {
        seq![(48 + n) as u8]
    } else {
        digits(n / 10).push((48 + n % 10) as u8)
    }
}

/// The number `i` in decimal, in ASCII, with a minus sign where it is
/// negative.
pub open spec fn decimal(i: int) -> Seq<u8> {
    if i < 0 {
        seq![0x2du8] + digits((-i) as nat)
    } else {
        digits(i as nat)
    }
}

/// The text that `value` is compared as with a string literal: the bytes
/// of a text or a blob, the decimal digits of an integer, `1` and `0` for
/// the two constants. A null and a floating-point number have none.
pub open spec fn as_text(value: ValueView) -> Option<Seq<u8>> {
    match value {
        ValueView::Null => None,
        ValueView::Int8(i) => Some(decimal(i as int)),
        ValueView::Int16(i) => Some(decimal(i as int)),
        ValueView::Int32(i) => Some(decimal(i as int)),
        ValueView::Int64(i) => Some(decimal(i as int)),
        ValueView::Float64(_) => None,
        ValueView::Bool(b) => Some(
            decimal(
                if b {
                    1
                } else {
                    0
                },
            ),
        ),
        ValueView::Blob(bytes) => Some(bytes),
        ValueView::Text(bytes) => Some(bytes),
    }
}

impl ValueView {
    /// The place of the value's type among the types: null first, then the
    /// integers by their width, the floating-point numbers, the two
    /// constants, the blobs and the texts.
    pub open spec fn rank(self) -> int {
        match self {
            ValueView::Null => 0,
            ValueView::Int8(_) => 1,
            ValueView::Int16(_) => 2,
            ValueView::Int32(_) => 3,
            ValueView::Int64(_) => 4,
            ValueView::Float64(_) => 5,
            ValueView::Bool(_) => 6,
            ValueView::Blob(_) => 7,
            ValueView::Text(_) => 8,
        }
    }

    /// The number that the value holds: the integer of an integer type,
    /// the eight bytes of a floating-point number as an unsigned integer,
    /// 0 or 1 for a constant, and 0 for any other value.
    pub open spec fn number(self) -> int {
        match self {
            ValueView::Int8(i) => i as int,
            ValueView::Int16(i) => i as int,
            ValueView::Int32(i) => i as int,
            ValueView::Int64(i) => i as int,
            ValueView::Float64(bits) => bits as int,
            ValueView::Bool(b) => if b {
                1
            } else {
                0
            },
            _ => 0,
        }
    }

    /// The bytes of a blob or a text; none for any other value.
    pub open spec fn bytes(self) -> Seq<u8> {
        match self {
            ValueView::Blob(bytes) => bytes,
            ValueView::Text(bytes) => bytes,
            _ => Seq::empty(),
        }
    }
}

/// -1 where `a` is below `b`, 0 where they are the same, 1 where `a` is
/// above `b`.
pub open spec fn sign_of(a: int, b: int) -> int {
    if a < b {
        -1
    } else if a == b {
        0
    } else {
        1
    }
}

/// How `a` stands to `b` from position `i` on, byte by byte: the first
/// byte in which they differ decides, and where there is none, the shorter
/// one comes first.
pub open spec fn bytes_sign(a: Seq<u8>, b: Seq<u8>, i: int) -> int
    decreases a.len() - i,
{
    if i < 0 {
        0
    } else if i >= a.len() {
        if i >= b.len() {
            0
        } else {
            -1
        }
    } else if i >= b.len() {
        1
    } else if a[i] != b[i] {
        sign_of(a[i] as int, b[i] as int)
    } else {
        bytes_sign(a, b, i + 1)
    }
}

/// How `a` stands to `b`: by their types first, then by what they hold,
/// numbers by their size and blobs and texts byte by byte.
pub open spec fn value_sign(a: ValueView, b: ValueView) -> int {
    if a.rank() != b.rank() {
        sign_of(a.rank(), b.rank())
    } else if a is Blob || a is Text {
        bytes_sign(a.bytes(), b.bytes(), 0)
    } else {
        sign_of(a.number(), b.number())
    }
}

/// Two byte strings stand to one another the other way round when they
/// change places, and neither comes first exactly where they are the same.
pub proof fn lemma_bytes_sign(a: Seq<u8>, b: Seq<u8>, i: int)
    requires
        0 <= i,
        i <= a.len(),
        i <= b.len(),
        a.subrange(0, i) == b.subrange(0, i),
    ensures
        bytes_sign(b, a, i) == -bytes_sign(a, b, i),
        bytes_sign(a, b, i) == 0 <==> a == b,
    decreases a.len() - i,
{
    if i < a.len() && i < b.len() {
        if a[i] == b[i] {
            assert(a.subrange(0, i + 1) =~= a.subrange(0, i).push(a[i]));
            assert(b.subrange(0, i + 1) =~= b.subrange(0, i).push(b[i]));
            lemma_bytes_sign(a, b, i + 1);
        }
    } else if i == a.len() && i == b.len() {
        assert(a.subrange(0, i) =~= a);
        assert(b.subrange(0, i) =~= b);
    }
}

/// Two values stand to one another the other way round when they change
/// places, and neither comes first exactly where they are the same.
pub proof fn lemma_value_sign(a: ValueView, b: ValueView)
    ensures
        value_sign(b, a) == -value_sign(a, b),
        value_sign(a, b) == 0 <==> a == b,
{
    if a.rank() == b.rank() && (a is Blob || a is Text) {
        assert(a.bytes().subrange(0, 0) =~= b.bytes().subrange(0, 0));
        lemma_bytes_sign(a.bytes(), b.bytes(), 0);
    }
}

/// Whether a condition finds `a` and `b` equal: a null equals nothing, not
/// even a null, and two other values are equal where they are the same.
pub open spec fn values_equal(a: ValueView, b: ValueView) -> bool {
    !(a is Null) && a == b
}

/// How `a` stands to `b`, byte by byte.
pub fn sign_of_bytes(a: &[u8], b: &[u8]) -> (sign: i8)
    ensures
        sign == bytes_sign(a@, b@, 0),
{
    let mut i: usize = 0;
    while i < a.len() && i < b.len()
        invariant
            i <= a.len(),
            i <= b.len(),
            bytes_sign(a@, b@, 0) == bytes_sign(a@, b@, i as int),
        decreases a.len() - i,
    {
        if a[i] < b[i] {
            return -1;
        }
        if a[i] > b[i] {
            return 1;
        }
        i = i + 1;
    }
    if i < b.len() {
        -1
    } else if i < a.len() {
        1
    } else {
        0
    }
}

impl Value {
    /// The place of the value's type among the types.
    pub fn rank(&self) -> (rank: u8)
        ensures
            rank == self@.rank(),
    {
        match self {
            Value::Null => 0,
            Value::Int8(_) => 1,
            Value::Int16(_) => 2,
            Value::Int32(_) => 3,
            Value::Int64(_) => 4,
            Value::Float64(_) => 5,
            Value::Bool(_) => 6,
            Value::Blob(_) => 7,
            Value::Text(_) => 8,
        }
    }

    /// The number that the value holds.
    pub fn number(&self) -> (number: i128)
        ensures
            number == self@.number(),
    {
        match self {
            Value::Int8(i) => *i as i128,
            Value::Int16(i) => *i as i128,
            Value::Int32(i) => *i as i128,
            Value::Int64(i) => *i as i128,
            Value::Float64(bits) => *bits as i128,
            Value::Bool(b) => if *b {
                1
            } else {
                0
            },
            _ => 0,
        }
    }

    /// How the value stands to `other`: -1 where it comes first, 0 where
    /// they are the same, 1 where it comes last.
    pub fn sign(&self, other: &Value) -> (sign: i8)
        ensures
            sign == value_sign(self@, other@),
    {
        let rank: u8 = self.rank();
        let other_rank: u8 = other.rank();
        if rank < other_rank {
            return -1;
        }
        if rank > other_rank {
            return 1;
        }
        match (self, other) {
            (Value::Blob(a), Value::Blob(b)) => sign_of_bytes(a.as_slice(), b.as_slice()),
            (Value::Text(a), Value::Text(b)) => sign_of_bytes(a.as_slice(), b.as_slice()),
            _ => {
                let number: i128 = self.number();
                let other_number: i128 = other.number();
                if number < other_number {
                    -1
                } else if number == other_number {
                    0
                } else {
                    1
                }
            },
        }
    }

    /// Whether a condition finds the value and `other` equal.
    pub fn equals(&self, other: &Value) -> (result: bool)
        ensures
            result == values_equal(self@, other@),
    {
        match (self, other) {
            (Value::Int8(a), Value::Int8(b)) => *a == *b,
            (Value::Int16(a), Value::Int16(b)) => *a == *b,
            (Value::Int32(a), Value::Int32(b)) => *a == *b,
            (Value::Int64(a), Value::Int64(b)) => *a == *b,
            (Value::Float64(a), Value::Float64(b)) => *a == *b,
            (Value::Bool(a), Value::Bool(b)) => *a == *b,
            (Value::Blob(a), Value::Blob(b)) => same_bytes(a.as_slice(), b.as_slice()),
            (Value::Text(a), Value::Text(b)) => same_bytes(a.as_slice(), b.as_slice()),
            _ => false,
        }
    }
}

impl Value {
    /// A copy of the value.
    pub fn copy(&self) -> (result: Value)
        ensures
            result@ == self@,
    {
        match self {
            Value::Null => Value::Null,
            Value::Int8(i) => Value::Int8(*i),
            Value::Int16(i) => Value::Int16(*i),
            Value::Int32(i) => Value::Int32(*i),
            Value::Int64(i) => Value::Int64(*i),
            Value::Float64(bits) => Value::Float64(*bits),
            Value::Bool(b) => Value::Bool(*b),
            Value::Blob(bytes) => Value::Blob(slice_to_vec(bytes.as_slice())),
            Value::Text(bytes) => Value::Text(slice_to_vec(bytes.as_slice())),
        }
    }
}

impl Value {
    /// The integer that the value holds, where it is of an integer type.
    pub fn as_integer(&self) -> (result: Option<i64>)
        ensures
            match integer_of(self@) {
                Some(i) => result == Some(i as i64) && i64::MIN <= i <= i64::MAX,
                None => result.is_none(),
            },
    {
        match self {
            Value::Int8(i) => Some(*i as i64),
            Value::Int16(i) => Some(*i as i64),
            Value::Int32(i) => Some(*i as i64),
            Value::Int64(i) => Some(*i),
            Value::Bool(b) => Some(
                if *b {
                    1
                } else {
                    0
                },
            ),
            _ => None,
        }
    }
}

/// Appends the decimal digits of `n` to `out`.
pub fn push_digits(n: u64, out: &mut Vec<u8>)
    ensures
        final(out)@ == old(out)@ + digits(n as nat),
    decreases n,
{
    if n >= 10 {
        push_digits(n / 10, out);
    }
    let digit: u8 = 48 + (n % 10) as u8;
    out.push(digit);
    proof {
        if n >= 10 {
            assert(final(out)@ =~= old(out)@ + digits(n as nat));
        } else {
            assert(final(out)@ =~= old(out)@ + digits(n as nat));
        }
    }
}

/// Writes `i` in decimal.
pub fn decimal_bytes(i: i64) -> (bytes: Vec<u8>)
    ensures
        bytes@ == decimal(i as int),
{
    let mut bytes: Vec<u8> = Vec::new();
    if i < 0 {
        bytes.push(0x2d);
        let magnitude: u64 = ((-(i + 1)) as u64) + 1;
        push_digits(magnitude, &mut bytes);
        proof {
            assert(bytes@ =~= seq![0x2du8] + digits((-i) as nat));
        }
    } else {
        push_digits(i as u64, &mut bytes);
        proof {
            assert(bytes@ =~= digits(i as nat));
        }
    }
    bytes
}

impl Value {
    /// The text that the value is compared as with a string literal.
    pub fn to_text(&self) -> (result: Option<Vec<u8>>)
        ensures
            match as_text(self@) {
                Some(text) => result matches Some(t) && t@ == text,
                None => result.is_none(),
            },
    {
        match self {
            Value::Null => None,
            Value::Int8(i) => Some(decimal_bytes(*i as i64)),
            Value::Int16(i) => Some(decimal_bytes(*i as i64)),
            Value::Int32(i) => Some(decimal_bytes(*i as i64)),
            Value::Int64(i) => Some(decimal_bytes(*i)),
            Value::Float64(_) => None,
            Value::Bool(b) => Some(
                decimal_bytes(
                    if *b {
                        1
                    } else {
                        0
                    },
                ),
            ),
            Value::Blob(bytes) => Some(slice_to_vec(bytes.as_slice())),
            Value::Text(bytes) => Some(slice_to_vec(bytes.as_slice())),
        }
    }
}

} // verus!
