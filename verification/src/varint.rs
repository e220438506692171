//! Variable-length integers: one to nine bytes, big-endian.

use vstd::prelude::*;
use vstd::slice::slice_subrange;
use crate::error::Error;

verus! {

/// `128` to the power `n`: the number of values that `n` seven-bit groups hold.
pub open spec fn groups(n: nat) -> nat
    decreases n,
{
    if n == 0 {
        1
    } else {
        128 * groups((n - 1) as nat)
    }
}

/// The varint that `bytes` starts with, read from byte `i` on, where `acc` is
/// the value of the seven-bit groups before it: its value and its length.
/// `None` where `bytes` ends before the varint does.
pub open spec fn decode_from(bytes: Seq<u8>, i: nat, acc: nat) -> Option<(nat, nat)>
    decreases 9 - i,
{
    if i >= bytes.len() || i > 8 {
        None
    } else if i == 8 {
        Some((acc * 256 + bytes[8] as nat, 9))
    } else if bytes[i as int] < 128 {
        Some((acc * 128 + bytes[i as int] as nat, i + 1))
    } else {
        decode_from(bytes, i + 1, acc * 128 + (bytes[i as int] - 128) as nat)
    }
}

/// The value and the length in bytes of the varint at the start of `bytes`.
///
/// Each of the first eight bytes gives its low seven bits, most significant
/// group first, and its high bit says whether another byte follows; a ninth
/// byte gives all of its eight bits and ends the varint.
pub open spec fn decode_varint(bytes: Seq<u8>) -> Option<(nat, nat)> {
    decode_from(bytes, 0, 0)
}

/// The number of bytes that the varint of `value` takes.
pub open spec fn varint_len(value: nat) -> nat {
    if value < groups(1) {
        1
    } else if value < groups(2) {
        2
    } else if value < groups(3) {
        3
    } else if value < groups(4) {
        4
    } else if value < groups(5) {
        5
    } else if value < groups(6) {
        6
    } else if value < groups(7) {
        7
    } else if value < groups(8) {
        8
    } else {
        9
    }
}

/// The low `n` seven-bit groups of `value`, most significant first, each
/// with the continuation bit set.
pub open spec fn leading_groups(value: nat, n: nat) -> Seq<u8>
    decreases n,
{
    if n == 0 {
        Seq::empty()
    } else {
        leading_groups(value / 128, (n - 1) as nat).push((128 + value % 128) as u8)
    }
}

/// The varint of `value`: the shortest one for a value below 2^56, nine
/// bytes for any other.
pub open spec fn encode_varint_spec(value: u64) -> Seq<u8> {
    let n = varint_len(value as nat);
    if n == 9 {
        leading_groups(value as nat / 256, 8).push((value as nat % 256) as u8)
    } else {
        leading_groups(value as nat / 128, (n - 1) as nat).push((value as nat % 128) as u8)
    }
}

/// Reading `n` groups with their continuation bits set moves the decoder
/// `n` bytes on and shifts the groups into the accumulator.
pub proof fn lemma_decode_leading_groups(bytes: Seq<u8>, i: nat, acc: nat, value: nat, n: nat)
    requires
        i + n <= 8,
        i + n <= bytes.len(),
        bytes.subrange(i as int, (i + n) as int) == leading_groups(value, n),
    ensures
        decode_from(bytes, i, acc) == decode_from(
            bytes,
            i + n,
            acc * groups(n) + value % groups(n),
        ),
    decreases n,
{
    if n == 0 {
        assert(acc * 1 + value % 1 == acc);
    } else {
        let m = (n - 1) as nat;
        let head = leading_groups(value / 128, m);
        let window = bytes.subrange(i as int, (i + n) as int);
        assert(window == head.push((128 + value % 128) as u8));
        assert(bytes.subrange(i as int, (i + m) as int) =~= head) by {
            assert(bytes.subrange(i as int, (i + m) as int) =~= window.subrange(0, m as int));
            assert(head.len() == m) by {
                lemma_leading_groups_len(value / 128, m);
            }
        }
        lemma_decode_leading_groups(bytes, i, acc, value / 128, m);
        let mid = acc * groups(m) + (value / 128) % groups(m);
        lemma_leading_groups_len(value, n);
        assert(bytes[(i + m) as int] == window[m as int]);
        assert(bytes[(i + m) as int] == (128 + value % 128) as u8);
        assert(decode_from(bytes, i + m, mid) == decode_from(
            bytes,
            i + m + 1,
            mid * 128 + value % 128,
        ));
        assert(mid * 128 + value % 128 == acc * groups(n) + value % groups(n)) by {
            lemma_split_low_group(value, m);
            assert(acc * groups(m) * 128 == acc * groups(n)) by (nonlinear_arith)
                requires
                    groups(n) == 128 * groups(m),
            ;
            let g = groups(m);
            let low = (value / 128) % g;
            assert((acc * g + low) * 128 == acc * g * 128 + low * 128) by (nonlinear_arith);
        }
    }
}

/// `leading_groups(value, n)` holds `n` bytes.
pub proof fn lemma_leading_groups_len(value: nat, n: nat)
    ensures
        leading_groups(value, n).len() == n,
    decreases n,
{
    if n > 0 {
        lemma_leading_groups_len(value / 128, (n - 1) as nat);
    }
}

/// The low `m + 1` groups of a value are the low `m` groups of its quotient
/// by 128, followed by its lowest group.
pub proof fn lemma_split_low_group(value: nat, m: nat)
    ensures
        value % groups(m + 1) == ((value / 128) % groups(m)) * 128 + value % 128,
{
    let g = groups(m);
    lemma_groups_positive(m);
    assert(groups(m + 1) == 128 * g);
    let q = value / 128;
    let r = value % 128;
    assert(value == 128 * q + r);
    let qq = q / g;
    let qr = q % g;
    assert(q == g * qq + qr) by {
        vstd::arithmetic::div_mod::lemma_fundamental_div_mod(q as int, g as int);
    }
    assert(value == (128 * g) * qq + (qr * 128 + r)) by (nonlinear_arith)
        requires
            value == 128 * q + r,
            q == g * qq + qr,
    ;
    assert(0 <= qr * 128 + r < 128 * g) by (nonlinear_arith)
        requires
            0 <= qr < g,
            0 <= r < 128,
    ;
    vstd::arithmetic::div_mod::lemma_fundamental_div_mod_converse(
        value as int,
        (128 * g) as int,
        qq as int,
        (qr * 128 + r) as int,
    );
}

/// `groups(n)` is positive.
pub proof fn lemma_groups_positive(n: nat)
    ensures
        groups(n) > 0,
    decreases n,
{
    if n > 0 {
        lemma_groups_positive((n - 1) as nat);
    }
}

/// The values of `groups` up to eight groups.
pub proof fn lemma_groups_values()
    ensures
        groups(0) == 1,
        groups(1) == 0x80,
        groups(2) == 0x4000,
        groups(3) == 0x20_0000,
        groups(4) == 0x1000_0000,
        groups(5) == 0x8_0000_0000,
        groups(6) == 0x400_0000_0000,
        groups(7) == 0x2_0000_0000_0000,
        groups(8) == 0x100_0000_0000_0000,
{
    reveal_with_fuel(groups, 10);
}

/// A value below `groups(n + 1)` loses nothing when its lowest group is cut
/// off and its other groups are reduced to `n` groups.
proof fn lemma_quotient_fits(value: nat, n: nat)
    requires
        value < groups(n + 1),
    ensures
        (value / 128) % groups(n) == value / 128,
{
    lemma_groups_positive(n);
    let g = groups(n);
    assert(value / 128 < g) by (nonlinear_arith)
        requires
            value < 128 * g,
            g > 0,
    ;
    vstd::arithmetic::div_mod::lemma_small_mod(value / 128, g);
}

/// Decoding the varint of a value gives the value back, with the length of
/// the varint, whatever bytes follow it. The length is between 1 and 9, and
/// it is 1 exactly for the values up to 127.
pub proof fn lemma_varint_roundtrip(value: u64, rest: Seq<u8>)
    ensures
        decode_varint(encode_varint_spec(value) + rest) == Some(
            (value as nat, varint_len(value as nat)),
        ),
        encode_varint_spec(value).len() == varint_len(value as nat),
        1 <= varint_len(value as nat) <= 9,
        varint_len(value as nat) == 1 <==> value <= 127,
{
    lemma_groups_values();
    let v = value as nat;
    let n = varint_len(v);
    let bytes = encode_varint_spec(value) + rest;
    if n == 9 {
        let head = leading_groups(v / 256, 8);
        lemma_leading_groups_len(v / 256, 8);
        assert(bytes.subrange(0, 8) =~= head);
        lemma_decode_leading_groups(bytes, 0, 0, v / 256, 8);
        assert(v / 256 < groups(8));
        assert((v / 256) % groups(8) == v / 256) by {
            vstd::arithmetic::div_mod::lemma_small_mod(v / 256, groups(8));
        }
        assert(bytes[8] == (v % 256) as u8);
        assert(decode_from(bytes, 8, v / 256) == Some(((v / 256) * 256 + v % 256, 9nat)));
    } else {
        let m = (n - 1) as nat;
        let head = leading_groups(v / 128, m);
        lemma_leading_groups_len(v / 128, m);
        assert(bytes.subrange(0, m as int) =~= head);
        lemma_decode_leading_groups(bytes, 0, 0, v / 128, m);
        assert(v < groups(m + 1));
        lemma_quotient_fits(v, m);
        assert(bytes[m as int] == (v % 128) as u8);
        assert(decode_from(bytes, m, v / 128) == Some(((v / 128) * 128 + v % 128, n)));
    }
}

/// A varint takes between one and nine of the bytes that are there, and
/// its value fits 64 bits.
pub proof fn lemma_decode_bounds(bytes: Seq<u8>)
    ensures
        decode_varint(bytes) matches Some((value, len)) ==> 1 <= len <= 9 && len <= bytes.len()
            && value <= u64::MAX,
{
    lemma_groups_values();
    lemma_decode_from_bounds(bytes, 0, 0);
}

/// The bounds of `lemma_decode_bounds`, from any position of the decoder.
pub proof fn lemma_decode_from_bounds(bytes: Seq<u8>, i: nat, acc: nat)
    requires
        i <= 8,
        acc < groups(i),
    ensures
        decode_from(bytes, i, acc) matches Some((value, len)) ==> i < len <= 9 && len
            <= bytes.len() && value < 256 * groups(8),
    decreases 9 - i,
{
    lemma_groups_values();
    if i < bytes.len() && i < 8 {
        lemma_groups_monotone(i + 1, 8);
        assert(groups(i + 1) == 128 * groups(i));
        if bytes[i as int] >= 128 {
            lemma_decode_from_bounds(bytes, i + 1, acc * 128 + (bytes[i as int] - 128) as nat);
        }
    }
}

/// Reads the varint at the start of `input`: its value, and the bytes that
/// follow it. Fails only where `input` ends before the varint does.
pub fn take_varint(input: &[u8]) -> (result: Result<(&[u8], u64), Error>)
    ensures
        match decode_varint(input@) {
            Some((value, len)) => result matches Ok((rest, v)) && v == value && rest@
                == input@.subrange(len as int, input@.len() as int),
            None => result == Err::<(&[u8], u64), Error>(Error::MalformedVarint),
        },
{
    let mut acc: u64 = 0;
    let mut i: usize = 0;
    proof {
        lemma_groups_values();
    }
    while i < 8
        invariant
            i <= 8,
            acc < groups(i as nat),
            groups(8) == 0x100_0000_0000_0000,
            decode_varint(input@) == decode_from(input@, i as nat, acc as nat),
        decreases 8 - i,
    {
        if i >= input.len() {
            return Err(Error::MalformedVarint);
        }
        let byte: u8 = input[i];
        proof {
            lemma_groups_monotone(i as nat, 8);
            assert(groups((i + 1) as nat) == 128 * groups(i as nat));
        }
        if byte < 128 {
            let rest = slice_subrange(input, i + 1, input.len());
            return Ok((rest, acc * 128 + byte as u64));
        }
        acc = acc * 128 + (byte - 128) as u64;
        i = i + 1;
    }
    if input.len() <= 8 {
        return Err(Error::MalformedVarint);
    }
    let rest = slice_subrange(input, 9, input.len());
    Ok((rest, acc * 256 + input[8] as u64))
}

/// The byte at position `k` of `leading_groups(value, n)` carries the group
/// that stands `n - 1 - k` groups above the lowest one.
pub proof fn lemma_leading_groups_index(value: nat, n: nat, k: nat)
    requires
        k < n,
    ensures
        leading_groups(value, n).len() == n,
        leading_groups(value, n)[k as int] == (128 + (value / groups((n - 1 - k) as nat))
            % 128) as u8,
    decreases n,
{
    let m = (n - 1) as nat;
    lemma_leading_groups_len(value / 128, m);
    if k == m {
        assert(groups(0) == 1);
        assert(value / 1 == value);
    } else {
        lemma_leading_groups_index(value / 128, m, k);
        let g = groups((m - 1 - k) as nat);
        lemma_groups_positive((m - 1 - k) as nat);
        assert(groups((n - 1 - k) as nat) == 128 * g);
        assert((value / 128) / g == value / (128 * g)) by {
            vstd::arithmetic::div_mod::lemma_div_denominator(value as int, 128, g as int);
        }
    }
}

/// The number of bytes that the varint of `value` takes.
pub fn encoded_len(value: u64) -> (n: usize)
    ensures
        n == varint_len(value as nat),
        1 <= n <= 9,
{
    proof {
        lemma_groups_values();
    }
    if value < 0x80 {
        1
    } else if value < 0x4000 {
        2
    } else if value < 0x20_0000 {
        3
    } else if value < 0x1000_0000 {
        4
    } else if value < 0x8_0000_0000 {
        5
    } else if value < 0x400_0000_0000 {
        6
    } else if value < 0x2_0000_0000_0000 {
        7
    } else if value < 0x100_0000_0000_0000 {
        8
    } else {
        9
    }
}

/// Writes `value` as a varint.
pub fn encode_varint(value: u64) -> (bytes: Vec<u8>)
    ensures
        bytes@ == encode_varint_spec(value),
{
    let n: usize = encoded_len(value);
    let m: usize = n - 1;
    let high: u64 = if n == 9 {
        value / 256
    } else {
        value / 128
    };
    let last: u8 = if n == 9 {
        (value % 256) as u8
    } else {
        (value % 128) as u8
    };
    let mut bytes: Vec<u8> = Vec::new();
    let mut k: usize = 0;
    while k < n
        invariant
            k <= n,
            bytes.len() == k,
            forall|p: int| 0 <= p < k ==> bytes[p] == last,
        decreases n - k,
    {
        bytes.push(last);
        k = k + 1;
    }
    let mut rest: u64 = high;
    let mut j: usize = 0;
    proof {
        assert(groups(0) == 1);
        assert(high as nat / 1 == high as nat);
    }
    while j < m
        invariant
            j <= m,
            m == n - 1,
            n <= 9,
            bytes.len() == n,
            bytes[m as int] == last,
            rest as nat == high as nat / groups(j as nat),
            forall|p: int|
                m - j <= p < m ==> bytes[p] == #[trigger] leading_groups(high as nat, m as nat)[p],
        decreases m - j,
    {
        let group: u8 = (128 + rest % 128) as u8;
        proof {
            lemma_leading_groups_index(high as nat, m as nat, (m - 1 - j) as nat);
            lemma_groups_positive(j as nat);
            assert(groups((j + 1) as nat) == 128 * groups(j as nat));
            assert((high as nat / groups(j as nat)) / 128 == high as nat / (groups(j as nat) * 128))
                by {
                vstd::arithmetic::div_mod::lemma_div_denominator(
                    high as int,
                    groups(j as nat) as int,
                    128,
                );
            }
        }
        bytes.set(m - 1 - j, group);
        rest = rest / 128;
        j = j + 1;
    }
    proof {
        lemma_leading_groups_len(high as nat, m as nat);
        assert(bytes@ =~= leading_groups(high as nat, m as nat).push(last));
    }
    bytes
}

/// `groups` grows with the number of groups.
pub proof fn lemma_groups_monotone(a: nat, b: nat)
    requires
        a <= b,
    ensures
        groups(a) <= groups(b),
    decreases b,
{
    if a < b {
        lemma_groups_monotone(a, (b - 1) as nat);
        lemma_groups_positive((b - 1) as nat);
    }
}

} // verus!
