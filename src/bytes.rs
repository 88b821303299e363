//! Little-endian integers in byte sequences.
use vstd::prelude::*;

verus! {

/// The little-endian 16-bit value at `b[i..i + 2]`.
pub open spec fn le16(b: Seq<u8>, i: int) -> int {
    b[i] + 256 * b[i + 1]
}

/// The little-endian 32-bit value at `b[i..i + 4]`.
pub open spec fn le32(b: Seq<u8>, i: int) -> int {
    b[i] + 256 * b[i + 1] + 65536 * b[i + 2] + 16777216 * b[i + 3]
}

/// Read the little-endian `u16` at `b[i..i + 2]`.
pub fn read_u16_le(b: &Vec<u8>, i: usize) -> (r: u16)
    requires
        i + 2 <= b@.len(),
    ensures
        r == le16(b@, i as int),
{
    // The length of a vector fits in a `usize`, and so do the indices below.
    let len = b.len();
    assert(i + 2 <= len);
    b[i] as u16 + 256 * (b[i + 1] as u16)
}

/// Read the little-endian `u32` at `b[i..i + 4]`.
pub fn read_u32_le(b: &Vec<u8>, i: usize) -> (r: u32)
    requires
        i + 4 <= b@.len(),
    ensures
        r == le32(b@, i as int),
{
    // The length of a vector fits in a `usize`, and so do the indices below.
    let len = b.len();
    assert(i + 4 <= len);
    b[i] as u32 + 256 * (b[i + 1] as u32) + 65536 * (b[i + 2] as u32) + 16777216 * (b[i + 3] as u32)
}

/// The two bytes of `x % 2^16`, least significant first.
pub open spec fn le16_bytes(x: int) -> Seq<u8> {
    seq![(x % 256) as u8, (x / 256 % 256) as u8]
}

/// The four bytes of `x % 2^32`, least significant first.
pub open spec fn le32_bytes(x: int) -> Seq<u8> {
    seq![(x % 256) as u8, (x / 256 % 256) as u8, (x / 256 / 256 % 256) as u8, (x / 256 / 256 / 256 % 256) as u8]
}

/// Append `x` as two little-endian bytes to `out`.
pub fn push_le16(out: &mut Vec<u8>, x: u16)
    ensures
        final(out)@ == old(out)@ + le16_bytes(x as int),
{
    out.push((x % 256) as u8);
    out.push((x / 256 % 256) as u8);
    assert(final(out)@ =~= old(out)@ + le16_bytes(x as int));
}

/// Append `x` as four little-endian bytes to `out`.
pub fn push_le32(out: &mut Vec<u8>, x: u32)
    ensures
        final(out)@ == old(out)@ + le32_bytes(x as int),
{
    out.push((x % 256) as u8);
    out.push((x / 256 % 256) as u8);
    out.push((x / 256 / 256 % 256) as u8);
    out.push((x / 256 / 256 / 256 % 256) as u8);
    assert(final(out)@ =~= old(out)@ + le32_bytes(x as int));
}

/// Two bytes written from `x` read back as `x`.
pub proof fn lemma_le16_round_trip(x: int)
    requires
        0 <= x < 65536,
    ensures
        le16(le16_bytes(x), 0) == x,
{
}

/// Four bytes written from `x` read back as `x`.
pub proof fn lemma_le32_round_trip(x: int)
    requires
        0 <= x < 0x1_0000_0000,
    ensures
        le32(le32_bytes(x), 0) == x,
{
}

} // verus!
