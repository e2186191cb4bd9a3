//! Little-endian integer readers over byte slices.
//!
//! All multi-byte integers of the container format are little-endian and
//! unaligned, so every structure is decoded through these readers.

use vstd::prelude::*;
use vstd::slice::slice_index_get;

verus! {

/// The 16-bit little-endian value stored at byte offset `i` of `s`.
pub open spec fn le16(s: Seq<u8>, i: int) -> u16
    recommends
        0 <= i,
        i + 2 <= s.len(),
{
    ((s[i] as int) + (s[i + 1] as int) * 0x100) as u16
}

/// The 32-bit little-endian value stored at byte offset `i` of `s`.
pub open spec fn le32(s: Seq<u8>, i: int) -> u32
    recommends
        0 <= i,
        i + 4 <= s.len(),
{
    ((s[i] as int) + (s[i + 1] as int) * 0x100 + (s[i + 2] as int) * 0x1_0000 + (s[i + 3] as int)
        * 0x100_0000) as u32
}

/// The 64-bit little-endian value stored at byte offset `i` of `s`.
pub open spec fn le64(s: Seq<u8>, i: int) -> u64
    recommends
        0 <= i,
        i + 8 <= s.len(),
{
    ((le32(s, i) as int) + (le32(s, i + 4) as int) * 0x1_0000_0000) as u64
}

/// Reads the 16-bit little-endian value at offset `off`.
pub fn read_le16(b: &[u8], off: usize) -> (r: u16)
    requires
        off + 2 <= b@.len(),
    ensures
        r == le16(b@, off as int),
{
    let n = b.len();
    let b0 = *slice_index_get(b, off);
    let b1 = *slice_index_get(b, off + 1);
    (b0 as u16) + (b1 as u16) * 0x100
}

/// Reads the 32-bit little-endian value at offset `off`.
pub fn read_le32(b: &[u8], off: usize) -> (r: u32)
    requires
        off + 4 <= b@.len(),
    ensures
        r == le32(b@, off as int),
{
    let n = b.len();
    let b0 = *slice_index_get(b, off);
    let b1 = *slice_index_get(b, off + 1);
    let b2 = *slice_index_get(b, off + 2);
    let b3 = *slice_index_get(b, off + 3);
    (b0 as u32) + (b1 as u32) * 0x100 + (b2 as u32) * 0x1_0000 + (b3 as u32) * 0x100_0000
}

/// Reads the 64-bit little-endian value at offset `off`.
pub fn read_le64(b: &[u8], off: usize) -> (r: u64)
    requires
        off + 8 <= b@.len(),
    ensures
        r == le64(b@, off as int),
{
    let n = b.len();
    let lo = read_le32(b, off);
    let hi = read_le32(b, off + 4);
    (lo as u64) + (hi as u64) * 0x1_0000_0000
}

} // verus!
