//! Format detection: the header signature picks the Windows version; for the two formats that
//! do not record their pointer width, the 32/64-bit layout is derived from where the first
//! entry's path offset lands.

use vstd::prelude::*;
use crate::bytes::{in_bounds, read_u32, read_u64, spec_read_u32, spec_read_u64};
use crate::model::ShimcacheFormat;

verus! {

/// Header signature (little-endian `u32` at offset 0) of Windows XP caches.
pub const SIG_WINXP: u32 = 0xdead_beef;
/// Header signature of Windows Server 2003 / Vista / 2008 caches.
pub const SIG_WIN2003_VISTA: u32 = 0xbadc_0ffe;
/// Header signature of Windows 7 / Server 2008 R2 caches.
pub const SIG_WIN7: u32 = 0xbadc_0fee;
/// Header signature of Windows 8.0/8.1 caches; also their header size.
pub const SIG_WIN8: u32 = 0x80;
/// Header signature of pre-Creators Windows 10 caches; also their header size.
pub const SIG_WIN10: u32 = 0x30;
/// Header signature of Creators-and-later Windows 10/11 caches; also their header size.
pub const SIG_WIN10_CREATORS: u32 = 0x34;

/// Windows 2003 header size and record strides.
pub const WIN2003_HEADER: usize = 8;
pub const WIN2003_ENTRY_32: usize = 24;
pub const WIN2003_ENTRY_64: usize = 32;

/// Windows 7 header size and record strides.
pub const WIN7_HEADER: usize = 128;
pub const WIN7_ENTRY_32: usize = 32;
pub const WIN7_ENTRY_64: usize = 48;

/// Offset of the first cached entry in a Windows 8 cache.
pub const WIN8_HEADER: usize = 128;

/// Whether the 4-byte Windows 8/10 entry signature sits at `off`: `10ts` when `v8_1`,
/// otherwise `00ts`.
pub open spec fn entry_sig_at(blob: Seq<u8>, off: int, v8_1: bool) -> bool {
    &&& in_bounds(blob, off, 4)
    &&& blob[off] == (if v8_1 { 0x31u8 } else { 0x30u8 })
    &&& blob[off + 1] == 0x30u8
    &&& blob[off + 2] == 0x74u8
    &&& blob[off + 3] == 0x73u8
}

/// Whether the entry signature (`10ts` when `v8_1`, else `00ts`) sits at `off`.
pub fn has_entry_sig(blob: &[u8], off: usize, v8_1: bool) -> (r: bool)
    ensures
        r == entry_sig_at(blob@, off as int, v8_1),
{
    if off > blob.len() || 4 > blob.len() - off {
        return false;
    }
    let first: u8 = if v8_1 { 0x31 } else { 0x30 };
    blob[off] == first && blob[off + 1] == 0x30 && blob[off + 2] == 0x74 && blob[off + 3] == 0x73
}

/// For a Windows 8 header: `Some(true)` when the first entry is `10ts` (8.1), `Some(false)`
/// when it is `00ts` (8.0), `None` otherwise.
pub open spec fn spec_win8_entry_variant(blob: Seq<u8>) -> Option<bool> {
    if entry_sig_at(blob, WIN8_HEADER as int, true) {
        Some(true)
    } else if entry_sig_at(blob, WIN8_HEADER as int, false) {
        Some(false)
    } else {
        None
    }
}

pub fn win8_entry_variant(blob: &[u8]) -> (r: Option<bool>)
    ensures
        r == spec_win8_entry_variant(blob@),
{
    if has_entry_sig(blob, WIN8_HEADER, true) {
        Some(true)
    } else if has_entry_sig(blob, WIN8_HEADER, false) {
        Some(false)
    } else {
        None
    }
}

/// The entry count recorded in the header (offset 4), `0` when absent.
pub open spec fn header_count(blob: Seq<u8>) -> nat {
    match spec_read_u32(blob, 4) {
        Some(n) => n as nat,
        None => 0,
    }
}

/// A first `path_offset` is plausible for a layout whose records end at `records_end` when it
/// points at or past that end, inside the blob, and at an even (UTF-16-aligned) position.
pub open spec fn plausible_path_offset(blob: Seq<u8>, po: Option<u64>, records_end: int) -> bool {
    match po {
        Some(p) => p >= records_end && p < blob.len() && p % 2 == 0,
        None => false,
    }
}

/// The 32-bit record's first `path_offset` (a `u32`), widened.
pub open spec fn widen(v: Option<u32>) -> Option<u64> {
    match v {
        Some(x) => Some(x as u64),
        None => None,
    }
}

pub open spec fn spec_2003_bitness(blob: Seq<u8>) -> ShimcacheFormat {
    let end64 = WIN2003_HEADER + header_count(blob) * WIN2003_ENTRY_64;
    if plausible_path_offset(blob, spec_read_u64(blob, WIN2003_HEADER + 8), end64) {
        ShimcacheFormat::Win2003_64
    } else {
        ShimcacheFormat::Win2003_32
    }
}

pub open spec fn spec_win7_bitness(blob: Seq<u8>) -> ShimcacheFormat {
    let n = header_count(blob);
    if plausible_path_offset(blob, spec_read_u64(blob, WIN7_HEADER + 8), WIN7_HEADER + n * WIN7_ENTRY_64) {
        ShimcacheFormat::Win7_64
    } else if plausible_path_offset(
        blob,
        widen(spec_read_u32(blob, WIN7_HEADER + 4)),
        WIN7_HEADER + n * WIN7_ENTRY_32,
    ) {
        ShimcacheFormat::Win7_32
    } else {
        ShimcacheFormat::Win7_64
    }
}

/// The detected format: the signature at offset 0 names the version; `None` when the blob is
/// too short, the signature is unknown, or a Windows 8 header has no `00ts`/`10ts` entry at 128.
pub open spec fn spec_detect_format(blob: Seq<u8>) -> Option<ShimcacheFormat> {
    match spec_read_u32(blob, 0) {
        None => None,
        Some(sig) => if sig == SIG_WINXP {
            Some(ShimcacheFormat::WinXp)
        } else if sig == SIG_WIN2003_VISTA {
            Some(spec_2003_bitness(blob))
        } else if sig == SIG_WIN7 {
            Some(spec_win7_bitness(blob))
        } else if sig == SIG_WIN8 {
            match spec_win8_entry_variant(blob) {
                Some(true) => Some(ShimcacheFormat::Win8_1),
                Some(false) => Some(ShimcacheFormat::Win8_0),
                None => None,
            }
        } else if sig == SIG_WIN10 || sig == SIG_WIN10_CREATORS {
            Some(ShimcacheFormat::Win10)
        } else {
            None
        },
    }
}

/// The header's entry count, `0` when the blob is too short to hold one.
pub fn read_header_count(blob: &[u8]) -> (n: u32)
    ensures
        n == header_count(blob@),
{
    match read_u32(blob, 4, 0) {
        Some(n) => n,
        None => 0,
    }
}

/// Whether `po` is a plausible first path offset for records ending at `records_end`.
fn plausible(blob: &[u8], po: Option<u64>, records_end: u64) -> (r: bool)
    ensures
        r == plausible_path_offset(blob@, po, records_end as int),
{
    match po {
        Some(p) => p >= records_end && p < blob.len() as u64 && p % 2 == 0,
        None => false,
    }
}

/// Pick the 2003/Vista record layout: 64-bit only when its first `path_offset` (a `u64` at
/// entry offset 8) lands past the 64-bit records region, inside the blob, on an even offset.
pub fn detect_2003_bitness(blob: &[u8]) -> (f: ShimcacheFormat)
    ensures
        f == spec_2003_bitness(blob@),
{
    let n = read_header_count(blob) as u64;
    let end64: u64 = 8 + n * 32;
    let po64 = read_u64(blob, WIN2003_HEADER, 8);
    if plausible(blob, po64, end64) {
        ShimcacheFormat::Win2003_64
    } else {
        ShimcacheFormat::Win2003_32
    }
}

/// Pick the Windows 7 record layout from where the first `path_offset` points, preferring
/// 64-bit when both layouts are plausible and when neither is.
pub fn detect_win7_bitness(blob: &[u8]) -> (f: ShimcacheFormat)
    ensures
        f == spec_win7_bitness(blob@),
{
    let n = read_header_count(blob) as u64;
    let po32 = match read_u32(blob, WIN7_HEADER, 4) {
        Some(p) => Some(p as u64),
        None => None,
    };
    let po64 = read_u64(blob, WIN7_HEADER, 8);
    let end32: u64 = 128 + n * 32;
    let end64: u64 = 128 + n * 48;
    if plausible(blob, po64, end64) {
        ShimcacheFormat::Win7_64
    } else if plausible(blob, po32, end32) {
        ShimcacheFormat::Win7_32
    } else {
        ShimcacheFormat::Win7_64
    }
}

/// Detect the AppCompatCache format from the blob header. `None` when the blob is too short or
/// the signature is unrecognized.
pub fn detect_format(blob: &[u8]) -> (r: Option<ShimcacheFormat>)
    ensures
        r == spec_detect_format(blob@),
{
    let sig = match read_u32(blob, 0, 0) {
        Some(s) => s,
        None => return None,
    };
    if sig == SIG_WINXP {
        Some(ShimcacheFormat::WinXp)
    } else if sig == SIG_WIN2003_VISTA {
        Some(detect_2003_bitness(blob))
    } else if sig == SIG_WIN7 {
        Some(detect_win7_bitness(blob))
    } else if sig == SIG_WIN8 {
        match win8_entry_variant(blob) {
            Some(true) => Some(ShimcacheFormat::Win8_1),
            Some(false) => Some(ShimcacheFormat::Win8_0),
            None => None,
        }
    } else if sig == SIG_WIN10 || sig == SIG_WIN10_CREATORS {
        Some(ShimcacheFormat::Win10)
    } else {
        None
    }
}

} // verus!
