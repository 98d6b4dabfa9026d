//! Little-endian encodings of the fixed-width integers the on-blob
//! layouts use: 32-bit extents in the table of contents and 64-bit
//! message identifiers and timestamps in message records.

use vstd::prelude::*;

verus! {

/// The value four little-endian bytes hold.
pub open spec fn le32_val(b0: u8, b1: u8, b2: u8, b3: u8) -> u32 {
    (b0 + 256 * b1 + 65536 * b2 + 16777216 * b3) as u32
}

/// Byte `k` (0 = lowest) of the little-endian image of `v`.
pub open spec fn u32_le_byte(v: u32, k: int) -> u8 {
    if k == 0 {
        (v % 256) as u8
    } else if k == 1 {
        ((v / 256) % 256) as u8
    } else if k == 2 {
        ((v / 65536) % 256) as u8
    } else {
        (v / 16777216) as u8
    }
}

/// Writing the four image bytes of `v` and reading them back yields `v`.
pub proof fn lemma_u32_le_round_trip(v: u32)
    ensures
        le32_val(u32_le_byte(v, 0), u32_le_byte(v, 1), u32_le_byte(v, 2), u32_le_byte(v, 3)) == v,
{
    assert(v % 256 + 256 * ((v / 256) % 256) + 65536 * ((v / 65536) % 256) + 16777216 * (v
        / 16777216) == v) by (bit_vector);
}

/// Reads the `u32` stored little-endian at the four given bytes.
pub fn u32_from_le(b0: u8, b1: u8, b2: u8, b3: u8) -> (r: u32)
    ensures
        r == le32_val(b0, b1, b2, b3),
{
    b0 as u32 + 256 * (b1 as u32) + 65536 * (b2 as u32) + 16777216 * (b3 as u32)
}

/// Appends the four-byte little-endian image of `v` to `out`.
pub fn push_u32_le(out: &mut Vec<u8>, v: u32)
    ensures
        final(out)@ =~= old(out)@ + u32_image(v),
{
    out.push((v % 256) as u8);
    out.push(((v / 256) % 256) as u8);
    out.push(((v / 65536) % 256) as u8);
    out.push((v / 16777216) as u8);
}

/// The four-byte little-endian image of `v`.
pub open spec fn u32_image(v: u32) -> Seq<u8> {
    seq![u32_le_byte(v, 0), u32_le_byte(v, 1), u32_le_byte(v, 2), u32_le_byte(v, 3)]
}

/// The value eight little-endian bytes hold, as the pair of its halves.
pub open spec fn le64_val(lo: u32, hi: u32) -> u64 {
    (lo + 0x1_0000_0000 * hi) as u64
}

/// The eight-byte little-endian image of `v`.
pub open spec fn u64_image(v: u64) -> Seq<u8> {
    u32_image((v % 0x1_0000_0000) as u32) + u32_image((v / 0x1_0000_0000) as u32)
}

/// Splitting `v` into halves and reassembling them yields `v`.
pub proof fn lemma_u64_le_round_trip(v: u64)
    ensures
        le64_val((v % 0x1_0000_0000) as u32, (v / 0x1_0000_0000) as u32) == v,
{
    assert(v % 0x1_0000_0000 + 0x1_0000_0000 * (v / 0x1_0000_0000) == v) by (bit_vector);
}

/// Appends the eight-byte little-endian image of `v` to `out`.
pub fn push_u64_le(out: &mut Vec<u8>, v: u64)
    ensures
        final(out)@ =~= old(out)@ + u64_image(v),
{
    push_u32_le(out, (v % 0x1_0000_0000) as u32);
    push_u32_le(out, (v / 0x1_0000_0000) as u32);
}

/// Reads the `u64` stored little-endian at the eight given bytes.
pub fn u64_from_le_parts(lo: u32, hi: u32) -> (r: u64)
    ensures
        r == le64_val(lo, hi),
{
    lo as u64 + 0x1_0000_0000 * (hi as u64)
}

/// Reading back the eight image bytes of `v` yields `v`.
pub proof fn lemma_u64_image_round_trip(v: u64)
    ensures
        le64_val(
            le32_val(u64_image(v)[0], u64_image(v)[1], u64_image(v)[2], u64_image(v)[3]),
            le32_val(u64_image(v)[4], u64_image(v)[5], u64_image(v)[6], u64_image(v)[7]),
        ) == v,
{
    let lo = (v % 0x1_0000_0000) as u32;
    let hi = (v / 0x1_0000_0000) as u32;
    lemma_u32_le_round_trip(lo);
    lemma_u32_le_round_trip(hi);
    lemma_u64_le_round_trip(v);
}

} // verus!
