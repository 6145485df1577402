//! Little-endian numbers in byte buffers.

use vstd::prelude::*;

verus! {

/// The 16-bit number that lies at `off` in `s`, low byte first.
pub open spec fn le16(s: Seq<u8>, off: int) -> u16 {
    (s[off] as int + 256 * s[off + 1] as int) as u16
}

/// The 32-bit number that lies at `off` in `s`, low byte first.
pub open spec fn le32(s: Seq<u8>, off: int) -> u32 {
    (le16(s, off) as int + 0x1_0000 * le16(s, off + 2) as int) as u32
}

/// The 64-bit number that lies at `off` in `s`, low byte first.
pub open spec fn le64(s: Seq<u8>, off: int) -> u64 {
    (le32(s, off) as int + 0x1_0000_0000 * le32(s, off + 4) as int) as u64
}

/// Reads the 16-bit number at `off`.
pub fn read_le16(data: &[u8], off: usize) -> (r: u16)
    requires
        off + 2 <= data@.len(),
    ensures
        r == le16(data@, off as int),
{
    let lo: u16 = data[off] as u16;
    let hi: u16 = data[off + 1] as u16;
    assert(lo < 256 && hi < 256 ==> lo | (hi << 8) == lo + 256 * hi) by (bit_vector);
    lo | (hi << 8)
}

/// Reads the 32-bit number at `off`.
pub fn read_le32(data: &[u8], off: usize) -> (r: u32)
    requires
        off + 4 <= data@.len(),
    ensures
        r == le32(data@, off as int),
{
    let len = data.len();
    let lo: u32 = read_le16(data, off) as u32;
    let hi: u32 = read_le16(data, off + 2) as u32;
    assert(lo < 0x1_0000 && hi < 0x1_0000 ==> lo | (hi << 16) == lo + 0x1_0000 * hi)
        by (bit_vector);
    lo | (hi << 16)
}

/// Reads the 64-bit number at `off`.
pub fn read_le64(data: &[u8], off: usize) -> (r: u64)
    requires
        off + 8 <= data@.len(),
    ensures
        r == le64(data@, off as int),
{
    let len = data.len();
    let lo: u64 = read_le32(data, off) as u64;
    let hi: u64 = read_le32(data, off + 4) as u64;
    assert(lo < 0x1_0000_0000 && hi < 0x1_0000_0000 ==> lo | (hi << 32) == lo + 0x1_0000_0000 * hi)
        by (bit_vector);
    lo | (hi << 32)
}

} // verus!
