//! Big-endian numbers and byte strings.

use vstd::prelude::*;

verus! {

/// The unsigned big-endian number that the two bytes at `at` spell.
pub open spec fn be_u16(bytes: Seq<u8>, at: int) -> nat {
    (bytes[at] as nat) * 256 + bytes[at + 1] as nat
}

/// The unsigned big-endian number that the four bytes at `at` spell.
pub open spec fn be_u32(bytes: Seq<u8>, at: int) -> nat {
    (((bytes[at] as nat) * 256 + bytes[at + 1] as nat) * 256 + bytes[at + 2] as nat) * 256
        + bytes[at + 3] as nat
}

/// The unsigned big-endian number that `bytes` spells as a whole.
pub open spec fn be_unsigned(bytes: Seq<u8>) -> nat
    decreases bytes.len(),
{
    if bytes.len() == 0 {
        0
    } else {
        be_unsigned(bytes.drop_last()) * 256 + bytes.last() as nat
    }
}

/// `256` to the power `n`: the number of values that `n` bytes hold.
pub open spec fn byte_range(n: nat) -> nat
    decreases n,
{
    if n == 0 {
        1
    } else {
        256 * byte_range((n - 1) as nat)
    }
}

/// The two's-complement number that `bytes` spells, big-endian: the unsigned
/// number where the top bit is clear, and that number less `256` to the
/// power of the length where it is set.
pub open spec fn be_signed(bytes: Seq<u8>) -> int {
    if bytes.len() > 0 && bytes[0] >= 128 {
        be_unsigned(bytes) - byte_range(bytes.len())
    } else {
        be_unsigned(bytes) as int
    }
}

/// `be_unsigned(bytes)` is below `256` to the power of the length.
pub proof fn lemma_be_unsigned_bound(bytes: Seq<u8>)
    ensures
        be_unsigned(bytes) < byte_range(bytes.len()),
    decreases bytes.len(),
{
    if bytes.len() > 0 {
        lemma_be_unsigned_bound(bytes.drop_last());
    }
}

/// The values of `byte_range` up to eight bytes.
pub proof fn lemma_byte_range_values()
    ensures
        byte_range(0) == 1,
        byte_range(1) == 0x100,
        byte_range(2) == 0x1_0000,
        byte_range(3) == 0x100_0000,
        byte_range(4) == 0x1_0000_0000,
        byte_range(5) == 0x100_0000_0000,
        byte_range(6) == 0x1_0000_0000_0000,
        byte_range(7) == 0x100_0000_0000_0000,
        byte_range(8) == 0x1_0000_0000_0000_0000,
{
    reveal_with_fuel(byte_range, 10);
}

/// Reads the big-endian `u16` at `at`.
pub fn read_u16(data: &[u8], at: usize) -> (value: u16)
    requires
        at + 2 <= data.len(),
    ensures
        value == be_u16(data@, at as int),
{
    (data[at] as u16) * 256 + data[at + 1] as u16
}

/// Reads the big-endian `u32` at `at`.
pub fn read_u32(data: &[u8], at: usize) -> (value: u32)
    requires
        at + 4 <= data.len(),
    ensures
        value == be_u32(data@, at as int),
{
    (((data[at] as u32) * 256 + data[at + 1] as u32) * 256 + data[at + 2] as u32) * 256
        + data[at + 3] as u32
}

/// Reads the `len` bytes at `at` as an unsigned big-endian number.
pub fn read_unsigned(data: &[u8], at: usize, len: usize) -> (value: u64)
    requires
        len <= 8,
        at + len <= data.len(),
    ensures
        value == be_unsigned(data@.subrange(at as int, at + len)),
{
    let mut value: u64 = 0;
    let mut i: usize = 0;
    proof {
        lemma_byte_range_values();
        assert(data@.subrange(at as int, at + 0) =~= Seq::<u8>::empty());
    }
    while i < len
        invariant
            i <= len <= 8,
            at + len <= data.len(),
            value == be_unsigned(data@.subrange(at as int, at + i)),
            value < byte_range(i as nat),
            byte_range(8) == 0x1_0000_0000_0000_0000,
        decreases len - i,
    {
        proof {
            let next = data@.subrange(at as int, at + i + 1);
            assert(next.drop_last() =~= data@.subrange(at as int, at + i));
            assert(next.last() == data@[at + i]);
            lemma_byte_range_monotone((i + 1) as nat, 8);
            assert(byte_range((i + 1) as nat) == 256 * byte_range(i as nat));
        }
        value = value * 256 + data[at + i] as u64;
        i = i + 1;
    }
    value
}

/// `byte_range` grows with the number of bytes.
pub proof fn lemma_byte_range_monotone(a: nat, b: nat)
    requires
        a <= b,
    ensures
        0 < byte_range(a) <= byte_range(b),
    decreases b,
{
    if a < b {
        lemma_byte_range_monotone(a, (b - 1) as nat);
    } else {
        lemma_byte_range_positive(a);
    }
}

/// `byte_range(n)` is positive.
pub proof fn lemma_byte_range_positive(n: nat)
    ensures
        byte_range(n) > 0,
    decreases n,
{
    if n > 0 {
        lemma_byte_range_positive((n - 1) as nat);
    }
}

/// Reads the `len` bytes at `at` as a two's-complement big-endian number.
pub fn read_signed(data: &[u8], at: usize, len: usize) -> (value: i64)
    requires
        1 <= len <= 8,
        at + len <= data.len(),
    ensures
        value == be_signed(data@.subrange(at as int, at + len)),
        -(byte_range(len as nat) / 2) <= value < byte_range(len as nat) / 2,
{
    let raw: u64 = read_unsigned(data, at, len);
    let negative: bool = data[at] >= 128;
    proof {
        let window = data@.subrange(at as int, at + len);
        lemma_byte_range_values();
        lemma_be_unsigned_bound(window);
        lemma_be_unsigned_top(window);
        assert(window[0] == data@[at as int]);
    }
    if !negative {
        raw as i64
    } else if len == 8 {
        // raw is at least 2^63 here
        let low: u64 = raw - 0x8000_0000_0000_0000;
        (low as i64) + i64::MIN
    } else {
        let range: i64 = if len == 1 {
            0x100
        } else if len == 2 {
            0x1_0000
        } else if len == 3 {
            0x100_0000
        } else if len == 4 {
            0x1_0000_0000
        } else if len == 5 {
            0x100_0000_0000
        } else if len == 6 {
            0x1_0000_0000_0000
        } else {
            0x100_0000_0000_0000
        };
        (raw as i64) - range
    }
}

/// The top bit of the first byte splits the range of `be_unsigned` in half.
pub proof fn lemma_be_unsigned_top(bytes: Seq<u8>)
    requires
        bytes.len() > 0,
    ensures
        bytes[0] >= 128 <==> be_unsigned(bytes) >= byte_range(bytes.len()) / 2,
        byte_range(bytes.len()) == 2 * (byte_range(bytes.len()) / 2),
    decreases bytes.len(),
{
    if bytes.len() == 1 {
        assert(bytes.drop_last().len() == 0);
        assert(be_unsigned(bytes.drop_last()) == 0);
        assert(byte_range(1) == 256) by {
            reveal_with_fuel(byte_range, 2);
        }
    } else {
        let front = bytes.drop_last();
        lemma_be_unsigned_top(front);
        assert(front[0] == bytes[0]);
        let half = byte_range(front.len()) / 2;
        assert(byte_range(bytes.len()) == 256 * byte_range(front.len()));
    }
}

/// Whether two byte strings are the same.
pub fn same_bytes(a: &[u8], b: &[u8]) -> (result: bool)
    ensures
        result == (a@ == b@),
{
    if a.len() != b.len() {
        return false;
    }
    let mut i: usize = 0;
    while i < a.len()
        invariant
            i <= a.len(),
            a.len() == b.len(),
            forall|j: int| 0 <= j < i ==> a@[j] == b@[j],
        decreases a.len() - i,
    {
        if a[i] != b[i] {
            return false;
        }
        i = i + 1;
    }
    proof {
        assert(a@ =~= b@);
    }
    true
}

} // verus!
