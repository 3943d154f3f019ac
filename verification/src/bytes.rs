use byteorder::{ByteOrder, LittleEndian, WriteBytesExt};
use vstd::prelude::*;

verus! {

/// The number that the first two bytes of `s` spell, least significant first.
pub open spec fn le_u16(s: Seq<u8>) -> int {
    s[0] + 0x100 * s[1]
}

/// The number that the first four bytes of `s` spell, least significant first.
pub open spec fn le_u32(s: Seq<u8>) -> int {
    s[0] + 0x100 * s[1] + 0x1_0000 * s[2] + 0x100_0000 * s[3]
}

/// The first four bytes of `s` read as a two's-complement number.
pub open spec fn le_i32(s: Seq<u8>) -> int {
    if le_u32(s) < 0x8000_0000 {
        le_u32(s)
    } else {
        le_u32(s) - 0x1_0000_0000
    }
}

/// The number that the first eight bytes of `s` spell, least significant first.
pub open spec fn le_u64(s: Seq<u8>) -> int {
    le_u32(s) + 0x1_0000_0000 * le_u32(s.subrange(4, 8))
}

/// The four bytes that spell `v`, least significant first.
pub open spec fn u32_le_bytes(v: u32) -> Seq<u8> {
    seq![
        (v as int % 0x100) as u8,
        (v as int / 0x100 % 0x100) as u8,
        (v as int / 0x1_0000 % 0x100) as u8,
        (v as int / 0x100_0000 % 0x100) as u8,
    ]
}

/// The eight bytes that spell `v`, least significant first.
pub open spec fn u64_le_bytes(v: u64) -> Seq<u8> {
    u32_le_bytes((v as int % 0x1_0000_0000) as u32) + u32_le_bytes(
        (v as int / 0x1_0000_0000) as u32,
    )
}

/// Reading back the four bytes written for `v` gives `v`.
pub proof fn lemma_u32_le_round_trip(v: u32)
    ensures
        u32_le_bytes(v).len() == 4,
        le_u32(u32_le_bytes(v)) == v,
{
    let x = v as int;
    assert(x == x % 0x100 + 0x100 * (x / 0x100 % 0x100) + 0x1_0000 * (x / 0x1_0000 % 0x100)
        + 0x100_0000 * (x / 0x100_0000 % 0x100));
}

/// Reading back the eight bytes written for `v` gives `v`.
pub proof fn lemma_u64_le_round_trip(v: u64)
    ensures
        u64_le_bytes(v).len() == 8,
        le_u64(u64_le_bytes(v)) == v,
{
    let lo = (v as int % 0x1_0000_0000) as u32;
    let hi = (v as int / 0x1_0000_0000) as u32;
    lemma_u32_le_round_trip(lo);
    lemma_u32_le_round_trip(hi);
    assert(u64_le_bytes(v).subrange(4, 8) =~= u32_le_bytes(hi));
}

/// `byteorder::LittleEndian::read_u16`, which reads the first two bytes of a
/// slice as a little-endian number and panics on a shorter slice.
#[verifier::external_body]
pub(crate) fn read_u16_le(bytes: &[u8]) -> (v: u16)
    requires
        bytes@.len() >= 2,
    ensures
        v == le_u16(bytes@),
{
    LittleEndian::read_u16(bytes)
}

/// `byteorder::LittleEndian::read_u32`, which reads the first four bytes of a
/// slice as a little-endian number and panics on a shorter slice.
#[verifier::external_body]
pub(crate) fn read_u32_le(bytes: &[u8]) -> (v: u32)
    requires
        bytes@.len() >= 4,
    ensures
        v == le_u32(bytes@),
{
    LittleEndian::read_u32(bytes)
}

/// `byteorder::LittleEndian::read_i32`, which reads the first four bytes of a
/// slice as a little-endian two's-complement number and panics on a shorter
/// slice.
#[verifier::external_body]
pub(crate) fn read_i32_le(bytes: &[u8]) -> (v: i32)
    requires
        bytes@.len() >= 4,
    ensures
        v == le_i32(bytes@),
{
    LittleEndian::read_i32(bytes)
}

/// `byteorder::LittleEndian::read_u64`, which reads the first eight bytes of a
/// slice as a little-endian number and panics on a shorter slice.
#[verifier::external_body]
pub(crate) fn read_u64_le(bytes: &[u8]) -> (v: u64)
    requires
        bytes@.len() >= 8,
    ensures
        v == le_u64(bytes@),
{
    LittleEndian::read_u64(bytes)
}

/// `byteorder::WriteBytesExt::write_u32` with `LittleEndian` on a vector,
/// which appends the four little-endian bytes of the number; writing to a
/// vector does not fail.
#[verifier::external_body]
pub(crate) fn push_u32_le(out: &mut Vec<u8>, v: u32)
    ensures
        final(out)@ == old(out)@ + u32_le_bytes(v),
{
    out.write_u32::<LittleEndian>(v).unwrap()
}

/// `byteorder::WriteBytesExt::write_u64` with `LittleEndian` on a vector,
/// which appends the eight little-endian bytes of the number; writing to a
/// vector does not fail.
#[verifier::external_body]
pub(crate) fn push_u64_le(out: &mut Vec<u8>, v: u64)
    ensures
        final(out)@ == old(out)@ + u64_le_bytes(v),
{
    out.write_u64::<LittleEndian>(v).unwrap()
}

} // verus!
