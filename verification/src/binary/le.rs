//! Little-endian integers: their meaning as sequences of bytes, and the
//! `byteorder` calls that read and write them.

use vstd::prelude::*;
use byteorder::{ByteOrder, LittleEndian};

verus! {

/// The number that `bytes` encodes in little-endian order.
pub open spec fn le_value(bytes: Seq<u8>) -> nat
    decreases bytes.len(),
{
    if bytes.len() == 0 {
        0
    } else {
        bytes[0] as nat + 256 * le_value(bytes.drop_first())
    }
}

/// The `width` little-endian bytes of `value` (taken modulo 256 to the `width`).
pub open spec fn le_bytes(value: nat, width: nat) -> Seq<u8>
    decreases width,
{
    if width == 0 {
        Seq::empty()
    } else {
        seq![(value % 256) as u8] + le_bytes(value / 256, (width - 1) as nat)
    }
}

/// 256 to the power `width`.
pub open spec fn byte_range(width: nat) -> nat
    decreases width,
{
    if width == 0 {
        1
    } else {
        256 * byte_range((width - 1) as nat)
    }
}

/// The unsigned number that holds the two's complement bits of `n`.
pub open spec fn i64_bits(n: i64) -> nat {
    if n >= 0 {
        n as nat
    } else {
        (n + 0x1_0000_0000_0000_0000) as nat
    }
}

/// The signed number whose two's complement bits are `bits`.
pub open spec fn i64_of_bits(bits: nat) -> int {
    if bits < 0x8000_0000_0000_0000 {
        bits as int
    } else {
        bits - 0x1_0000_0000_0000_0000
    }
}

pub proof fn lemma_le_bytes_len(value: nat, width: nat)
    ensures
        le_bytes(value, width).len() == width,
    decreases width,
{
    if width > 0 {
        lemma_le_bytes_len(value / 256, (width - 1) as nat);
    }
}

pub proof fn lemma_le_value_bound(bytes: Seq<u8>)
    ensures
        le_value(bytes) < byte_range(bytes.len()),
    decreases bytes.len(),
{
    if bytes.len() > 0 {
        lemma_le_value_bound(bytes.drop_first());
    }
}

/// Reading back the bytes of a value that fits gives the value.
pub proof fn lemma_le_value_of_bytes(value: nat, width: nat)
    requires
        value < byte_range(width),
    ensures
        le_value(le_bytes(value, width)) == value,
    decreases width,
{
    if width > 0 {
        let rest = le_bytes(value / 256, (width - 1) as nat);
        assert(le_bytes(value, width).drop_first() =~= rest);
        assert(value / 256 < byte_range((width - 1) as nat)) by (nonlinear_arith)
            requires
                value < 256 * byte_range((width - 1) as nat),
        ;
        lemma_le_value_of_bytes(value / 256, (width - 1) as nat);
    }
}

/// Writing the value of some bytes gives the same bytes back.
pub proof fn lemma_le_bytes_of_value(bytes: Seq<u8>)
    ensures
        le_bytes(le_value(bytes), bytes.len()) == bytes,
    decreases bytes.len(),
{
    if bytes.len() > 0 {
        let v = le_value(bytes);
        let t = le_value(bytes.drop_first());
        assert(v % 256 == bytes[0] && v / 256 == t) by (nonlinear_arith)
            requires
                v == bytes[0] as nat + 256 * t,
                bytes[0] < 256,
        ;
        lemma_le_bytes_of_value(bytes.drop_first());
        assert(le_bytes(v, bytes.len()) =~= bytes);
    }
}

pub proof fn lemma_byte_range_values()
    ensures
        byte_range(1) == 0x100,
        byte_range(2) == 0x1_0000,
        byte_range(4) == 0x1_0000_0000,
        byte_range(8) == 0x1_0000_0000_0000_0000,
{
    reveal_with_fuel(byte_range, 9);
}

pub proof fn lemma_i64_bits_roundtrip(n: i64)
    ensures
        i64_bits(n) < 0x1_0000_0000_0000_0000,
        i64_of_bits(i64_bits(n)) == n,
{
}

/// Appends `bytes` to the end of `out`.
pub fn append_bytes(out: &mut Vec<u8>, bytes: &[u8])
    ensures
        final(out)@ == old(out)@ + bytes@,
{
    let mut i: usize = 0;
    while i < bytes.len()
        invariant
            0 <= i <= bytes.len(),
            out@ == old(out)@ + bytes@.take(i as int),
        decreases bytes.len() - i,
    {
        out.push(bytes[i]);
        i = i + 1;
        assert(bytes@.take(i as int) =~= bytes@.take(i - 1) + seq![bytes@[i - 1]]);
    }
    assert(bytes@.take(i as int) =~= bytes@);
}

/// `LittleEndian::write_u16` from `byteorder`: the two bytes of `n`, least
/// significant first.
#[verifier::external_body]
pub(crate) fn le_u16_bytes(n: u16) -> (b: [u8; 2])
    ensures
        b@ == le_bytes(n as nat, 2),
{
    let mut buf = [0u8; 2];
    LittleEndian::write_u16(&mut buf, n);
    buf
}

/// `LittleEndian::write_u32` from `byteorder`: the four bytes of `n`, least
/// significant first.
#[verifier::external_body]
pub(crate) fn le_u32_bytes(n: u32) -> (b: [u8; 4])
    ensures
        b@ == le_bytes(n as nat, 4),
{
    let mut buf = [0u8; 4];
    LittleEndian::write_u32(&mut buf, n);
    buf
}

/// `LittleEndian::write_u64` from `byteorder`: the eight bytes of `n`, least
/// significant first.
#[verifier::external_body]
pub(crate) fn le_u64_bytes(n: u64) -> (b: [u8; 8])
    ensures
        b@ == le_bytes(n as nat, 8),
{
    let mut buf = [0u8; 8];
    LittleEndian::write_u64(&mut buf, n);
    buf
}

/// `LittleEndian::write_i64` from `byteorder`: the eight bytes of the two's
/// complement of `n`, least significant first.
#[verifier::external_body]
pub(crate) fn le_i64_bytes(n: i64) -> (b: [u8; 8])
    ensures
        b@ == le_bytes(i64_bits(n), 8),
{
    let mut buf = [0u8; 8];
    LittleEndian::write_i64(&mut buf, n);
    buf
}

/// `LittleEndian::read_u16` from `byteorder` on the bytes at `pos`: the number
/// that the two bytes there encode, least significant first.
#[verifier::external_body]
pub(crate) fn le_u16_at(bytes: &[u8], pos: usize) -> (n: u16)
    requires
        pos + 2 <= bytes@.len(),
    ensures
        n == le_value(bytes@.subrange(pos as int, pos + 2)),
{
    LittleEndian::read_u16(&bytes[pos..])
}

/// `LittleEndian::read_u32` from `byteorder` on the bytes at `pos`: the number
/// that the four bytes there encode, least significant first.
#[verifier::external_body]
pub(crate) fn le_u32_at(bytes: &[u8], pos: usize) -> (n: u32)
    requires
        pos + 4 <= bytes@.len(),
    ensures
        n == le_value(bytes@.subrange(pos as int, pos + 4)),
{
    LittleEndian::read_u32(&bytes[pos..])
}

/// `LittleEndian::read_u64` from `byteorder` on the bytes at `pos`: the number
/// that the eight bytes there encode, least significant first.
#[verifier::external_body]
pub(crate) fn le_u64_at(bytes: &[u8], pos: usize) -> (n: u64)
    requires
        pos + 8 <= bytes@.len(),
    ensures
        n == le_value(bytes@.subrange(pos as int, pos + 8)),
{
    LittleEndian::read_u64(&bytes[pos..])
}

/// `LittleEndian::read_i64` from `byteorder` on the bytes at `pos`: the signed
/// number whose two's complement the eight bytes there encode.
#[verifier::external_body]
pub(crate) fn le_i64_at(bytes: &[u8], pos: usize) -> (n: i64)
    requires
        pos + 8 <= bytes@.len(),
    ensures
        n == i64_of_bits(le_value(bytes@.subrange(pos as int, pos + 8))),
{
    LittleEndian::read_i64(&bytes[pos..])
}

} // verus!
