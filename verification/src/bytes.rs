//! Bounds-checked little-endian readers over a byte blob.
//!
//! Offsets are reasoned about as mathematical integers: a read at an offset whose field would
//! end past the blob (or past `usize::MAX`) yields `None`, never a panic.

use vstd::prelude::*;

verus! {

/// The value of two little-endian bytes.
pub open spec fn le16(b0: u8, b1: u8) -> u16 {
    (b0 + 256 * b1) as u16
}

/// The value of four little-endian bytes.
pub open spec fn le32(b: Seq<u8>, off: int) -> u32 {
    (b[off] + 0x100 * b[off + 1] + 0x1_0000 * b[off + 2] + 0x100_0000 * b[off + 3]) as u32
}

/// The value of eight little-endian bytes.
pub open spec fn le64(b: Seq<u8>, off: int) -> u64 {
    (le32(b, off) + 0x1_0000_0000 * le32(b, off + 4)) as u64
}

/// Whether `n` bytes starting at `off` lie inside the blob.
pub open spec fn in_bounds(blob: Seq<u8>, off: int, n: int) -> bool {
    0 <= off && off + n <= blob.len()
}

pub open spec fn spec_read_u16(blob: Seq<u8>, off: int) -> Option<u16> {
    if in_bounds(blob, off, 2) {
        Some(le16(blob[off], blob[off + 1]))
    } else {
        None
    }
}

pub open spec fn spec_read_u32(blob: Seq<u8>, off: int) -> Option<u32> {
    if in_bounds(blob, off, 4) {
        Some(le32(blob, off))
    } else {
        None
    }
}

pub open spec fn spec_read_u64(blob: Seq<u8>, off: int) -> Option<u64> {
    if in_bounds(blob, off, 8) {
        Some(le64(blob, off))
    } else {
        None
    }
}

/// Whether `n` bytes at `base + delta` lie inside the blob, computed without overflow.
pub fn fits(blob: &[u8], base: usize, delta: usize, n: usize) -> (r: bool)
    ensures
        r == in_bounds(blob@, base + delta, n as int),
        r ==> base + delta + n <= blob.len(),
{
    base <= blob.len() && delta <= blob.len() - base && n <= blob.len() - base - delta
}

/// Read a little-endian `u16` at `base + delta`.
pub fn read_u16(blob: &[u8], base: usize, delta: usize) -> (r: Option<u16>)
    ensures
        r == spec_read_u16(blob@, base + delta),
{
    if !fits(blob, base, delta, 2) {
        return None;
    }
    let off = base + delta;
    let v = blob[off] as u16 + (blob[off + 1] as u16) * 256;
    Some(v)
}

/// Read a little-endian `u32` at `base + delta`.
pub fn read_u32(blob: &[u8], base: usize, delta: usize) -> (r: Option<u32>)
    ensures
        r == spec_read_u32(blob@, base + delta),
{
    if !fits(blob, base, delta, 4) {
        return None;
    }
    let off = base + delta;
    let v = blob[off] as u32 + (blob[off + 1] as u32) * 0x100 + (blob[off + 2] as u32) * 0x1_0000
        + (blob[off + 3] as u32) * 0x100_0000;
    Some(v)
}

/// Read a little-endian `u64` at `base + delta`.
pub fn read_u64(blob: &[u8], base: usize, delta: usize) -> (r: Option<u64>)
    ensures
        r == spec_read_u64(blob@, base + delta),
{
    if !fits(blob, base, delta, 8) {
        return None;
    }
    let off = base + delta;
    let lo = blob[off] as u64 + (blob[off + 1] as u64) * 0x100 + (blob[off + 2] as u64) * 0x1_0000
        + (blob[off + 3] as u64) * 0x100_0000;
    let hi = blob[off + 4] as u64 + (blob[off + 5] as u64) * 0x100 + (blob[off + 6] as u64)
        * 0x1_0000 + (blob[off + 7] as u64) * 0x100_0000;
    Some(lo + hi * 0x1_0000_0000)
}

} // verus!
