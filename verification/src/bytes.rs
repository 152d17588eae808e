//! Little-endian field readers over raw on-disk bytes, with their
//! mathematical models.
use vstd::prelude::*;

verus! {

/// The 16-bit little-endian value stored at byte offset `off` of `s`.
pub open spec fn le16(s: Seq<u8>, off: int) -> int {
    s[off] + 0x100 * s[off + 1]
}

/// The 32-bit little-endian value stored at byte offset `off` of `s`.
pub open spec fn le32(s: Seq<u8>, off: int) -> int {
    s[off] + 0x100 * s[off + 1] + 0x10000 * s[off + 2] + 0x1000000 * s[off + 3]
}

/// The four bytes that encode `x` in little-endian order.
pub open spec fn le32_bytes(x: u32) -> Seq<u8> {
    seq![
        (x % 0x100) as u8,
        ((x / 0x100) % 0x100) as u8,
        ((x / 0x10000) % 0x100) as u8,
        (x / 0x1000000) as u8,
    ]
}

/// Decoding the little-endian encoding of `x` gives back `x`.
pub proof fn lemma_le32_bytes_roundtrip(x: u32)
    ensures
        le32(le32_bytes(x), 0) == x,
{
    assert(x % 0x100 + 0x100 * ((x / 0x100) % 0x100) + 0x10000 * ((x / 0x10000) % 0x100)
        + 0x1000000 * (x / 0x1000000) == x) by (bit_vector);
}

/// Reads the 16-bit little-endian value at `off`.
pub fn get16(data: &Vec<u8>, off: usize) -> (r: u16)
    requires
        off + 2 <= data@.len(),
    ensures
        r == le16(data@, off as int),
{
    proof {
        assert(data.len() == data@.len());
    }
    data[off] as u16 + 0x100 * (data[off + 1] as u16)
}

/// Reads the 32-bit little-endian value at `off`.
pub fn get32(data: &Vec<u8>, off: usize) -> (r: u32)
    requires
        off + 4 <= data@.len(),
    ensures
        r == le32(data@, off as int),
{
    proof {
        assert(data.len() == data@.len());
    }
    data[off] as u32 + 0x100 * (data[off + 1] as u32) + 0x10000 * (data[off + 2] as u32)
        + 0x1000000 * (data[off + 3] as u32)
}

} // verus!
