//! Decoding the cached entries of every AppCompatCache layout.
//!
//! Each layout's result is defined by a recursive spec function that walks the blob the way the
//! format is laid out; the executable parsers are proved equal to it. Malformed entries are
//! skipped or end the walk, they never fail the whole decode.

use vstd::prelude::*;
use crate::bytes::{read_u16, read_u32, read_u64, spec_read_u16, spec_read_u32, spec_read_u64};
use crate::detect::{
    detect_2003_bitness, detect_win7_bitness, entry_sig_at, has_entry_sig, header_count,
    read_header_count, spec_2003_bitness, spec_win7_bitness, spec_win8_entry_variant,
    win8_entry_variant, widen, SIG_WIN10, SIG_WIN10_CREATORS, SIG_WIN2003_VISTA, SIG_WIN7,
    SIG_WIN8, SIG_WINXP, WIN2003_ENTRY_32, WIN2003_ENTRY_64, WIN2003_HEADER, WIN7_ENTRY_32,
    WIN7_ENTRY_64, WIN7_HEADER, WIN8_HEADER,
};
use crate::model::{entries_model, EntryModel, ShimcacheEntry, ShimcacheError, ShimcacheFormat};
use crate::utf16::{read_path, spec_read_path};

verus! {

/// Windows XP: 400-byte header, fixed 552-byte entries whose first 528 bytes are the
/// NUL-padded UTF-16LE path, followed by the last-modification `FILETIME`.
pub const XP_HEADER: usize = 400;
pub const XP_ENTRY: usize = 552;
pub const XP_PATH_BYTES: usize = 528;

/// The value, or `0` when absent.
pub open spec fn or_zero32(v: Option<u32>) -> u32 {
    match v {
        Some(x) => x,
        None => 0,
    }
}

pub open spec fn or_zero64(v: Option<u64>) -> u64 {
    match v {
        Some(x) => x,
        None => 0,
    }
}

/// Whether the execution bit (`insertion_flags & 0x2`) is set.
pub open spec fn exec_bit(flags: u32) -> bool {
    flags & 2 != 0
}

/// How far `off` is from the end of the blob (the measure of the inline-entry walks).
pub open spec fn remaining(len: nat, off: int) -> nat {
    if off < len {
        (len - off) as nat
    } else {
        0
    }
}

// ── Windows XP ──────────────────────────────────────────────────────────────────────────────

/// The entries of an XP cache from the `i`-th of `n` fixed records on. A record that does not
/// fit ends the walk; a record whose path is empty is skipped.
pub open spec fn xp_entries(blob: Seq<u8>, n: nat, i: nat) -> Seq<EntryModel>
    decreases n - i,
{
    if i >= n {
        Seq::empty()
    } else {
        let base = XP_HEADER + i * XP_ENTRY;
        match spec_read_path(blob, base, XP_PATH_BYTES as int, true) {
            None => Seq::empty(),
            Some(path) => match spec_read_u64(blob, base + XP_PATH_BYTES) {
                None => Seq::empty(),
                Some(t) => if path.len() == 0 {
                    xp_entries(blob, n, i + 1)
                } else {
                    seq![EntryModel { path, last_modified_filetime: t, executed: None }]
                        + xp_entries(blob, n, i + 1)
                },
            },
        }
    }
}

// ── Offset-table records (Windows 2003/Vista and Windows 7) ───────────────────────────────

/// Where a record's fields sit. `wide` records (64-bit) hold `path_offset` as a `u64` at 8,
/// the `FILETIME` at 16 and the insertion flags at 24; narrow records a `u32` path offset at 4,
/// the `FILETIME` at 8 and the flags at 16. `path_size` is a `u16` at 0 in both.
pub open spec fn record_path_offset(blob: Seq<u8>, base: int, wide: bool) -> Option<u64> {
    if wide {
        spec_read_u64(blob, base + 8)
    } else {
        widen(spec_read_u32(blob, base + 4))
    }
}

pub open spec fn record_filetime(blob: Seq<u8>, base: int, wide: bool) -> Option<u64> {
    spec_read_u64(blob, base + (if wide { 16int } else { 8int }))
}

/// The execution state of a record: `Some(None)` for layouts without flags, `Some(Some(bit))`
/// when the flags are read, `None` when they are missing.
pub open spec fn record_executed(blob: Seq<u8>, base: int, wide: bool, with_flags: bool) -> Option<Option<bool>> {
    if with_flags {
        match spec_read_u32(blob, base + (if wide { 24int } else { 16int })) {
            Some(f) => Some(Some(exec_bit(f))),
            None => None,
        }
    } else {
        Some(None)
    }
}

/// The entries of an offset-table cache from the `i`-th of `n` records on. A record whose
/// `path_size` cannot be read ends the walk; one with a missing field or an out-of-bounds path
/// is skipped.
pub open spec fn record_entries(
    blob: Seq<u8>,
    header: int,
    stride: int,
    wide: bool,
    with_flags: bool,
    n: nat,
    i: nat,
) -> Seq<EntryModel>
    decreases n - i,
{
    if i >= n {
        Seq::empty()
    } else {
        let base = header + i * stride;
        let rest = record_entries(blob, header, stride, wide, with_flags, n, i + 1);
        match spec_read_u16(blob, base) {
            None => Seq::empty(),
            Some(path_size) => match (
                record_path_offset(blob, base, wide),
                record_filetime(blob, base, wide),
                record_executed(blob, base, wide, with_flags),
            ) {
                (Some(po), Some(t), Some(executed)) => match spec_read_path(
                    blob,
                    po as int,
                    path_size as int,
                    false,
                ) {
                    Some(path) => seq![EntryModel { path, last_modified_filetime: t, executed }]
                        + rest,
                    None => rest,
                },
                _ => rest,
            },
        }
    }
}

// ── Inline self-delimiting entries (Windows 8.0/8.1 and Windows 10) ───────────────────────

/// The entries of a Windows 8 cache from `off` on. Each entry is the signature, 4 unknown
/// bytes, `cached_entry_data_size`, then a body holding `path_size`, the inline path, the
/// insertion and shim flags (plus 2 bytes on 8.1) and the `FILETIME`. The walk ends at the
/// first entry without the signature or with a truncated header or path.
pub open spec fn win8_entries(blob: Seq<u8>, off: int, v8_1: bool) -> Seq<EntryModel>
    decreases remaining(blob.len(), off),
{
    if !entry_sig_at(blob, off, v8_1) {
        Seq::empty()
    } else {
        match spec_read_u32(blob, off + 8) {
            None => Seq::empty(),
            Some(data_size) => {
                let body = off + 12;
                match spec_read_u16(blob, body) {
                    None => Seq::empty(),
                    Some(path_size) => match spec_read_path(blob, body + 2, path_size as int, false) {
                        None => Seq::empty(),
                        Some(path) => {
                            let after = body + 2 + path_size;
                            let flags = or_zero32(spec_read_u32(blob, after));
                            let t = or_zero64(spec_read_u64(blob, after + (if v8_1 { 10int } else { 8int })));
                            seq![EntryModel { path, last_modified_filetime: t, executed: Some(exec_bit(flags)) }]
                                + win8_entries(blob, body + data_size, v8_1)
                        },
                    },
                }
            },
        }
    }
}

/// The entries of a Windows 10 cache from `off` on: `10ts` entries whose body holds
/// `path_size`, the inline path and the `FILETIME`; no execution flag.
pub open spec fn win10_entries(blob: Seq<u8>, off: int) -> Seq<EntryModel>
    decreases remaining(blob.len(), off),
{
    if !entry_sig_at(blob, off, true) {
        Seq::empty()
    } else {
        match spec_read_u32(blob, off + 8) {
            None => Seq::empty(),
            Some(data_size) => {
                let body = off + 12;
                match spec_read_u16(blob, body) {
                    None => Seq::empty(),
                    Some(path_size) => match spec_read_path(blob, body + 2, path_size as int, false) {
                        None => Seq::empty(),
                        Some(path) => {
                            let t = or_zero64(spec_read_u64(blob, body + 2 + path_size));
                            seq![EntryModel { path, last_modified_filetime: t, executed: None }]
                                + win10_entries(blob, body + data_size)
                        },
                    },
                }
            },
        }
    }
}

// ── Whole-blob result ──────────────────────────────────────────────────────────────────────

pub open spec fn spec_parse_2003(blob: Seq<u8>, fmt: ShimcacheFormat) -> Seq<EntryModel> {
    let wide = fmt == ShimcacheFormat::Win2003_64;
    record_entries(
        blob,
        WIN2003_HEADER as int,
        if wide { WIN2003_ENTRY_64 as int } else { WIN2003_ENTRY_32 as int },
        wide,
        false,
        header_count(blob),
        0,
    )
}

pub open spec fn spec_parse_win7(blob: Seq<u8>, fmt: ShimcacheFormat) -> Seq<EntryModel> {
    let wide = fmt != ShimcacheFormat::Win7_32;
    record_entries(
        blob,
        WIN7_HEADER as int,
        if wide { WIN7_ENTRY_64 as int } else { WIN7_ENTRY_32 as int },
        wide,
        true,
        header_count(blob),
        0,
    )
}

/// The decode of a whole blob: `TooShort` when it cannot hold a signature, `UnknownSignature`
/// (naming the value) for an unknown signature or a Windows 8 header without a `00ts`/`10ts`
/// first entry, and otherwise the entries of the layout the signature selects.
pub open spec fn spec_parse(blob: Seq<u8>) -> Result<Seq<EntryModel>, ShimcacheError> {
    match spec_read_u32(blob, 0) {
        None => Err(ShimcacheError::TooShort { len: blob.len() as usize }),
        Some(sig) => if sig == SIG_WINXP {
            Ok(xp_entries(blob, header_count(blob), 0))
        } else if sig == SIG_WIN2003_VISTA {
            Ok(spec_parse_2003(blob, spec_2003_bitness(blob)))
        } else if sig == SIG_WIN7 {
            Ok(spec_parse_win7(blob, spec_win7_bitness(blob)))
        } else if sig == SIG_WIN8 {
            match spec_win8_entry_variant(blob) {
                Some(v8_1) => Ok(win8_entries(blob, WIN8_HEADER as int, v8_1)),
                None => Err(ShimcacheError::UnknownSignature { signature: sig }),
            }
        } else if sig == SIG_WIN10 || sig == SIG_WIN10_CREATORS {
            Ok(win10_entries(blob, sig as int))
        } else {
            Err(ShimcacheError::UnknownSignature { signature: sig })
        },
    }
}

proof fn lemma_push_model(out: Seq<ShimcacheEntry>, e: ShimcacheEntry)
    ensures
        entries_model(out.push(e)) == entries_model(out) + seq![e@],
{
    assert(entries_model(out.push(e)) =~= entries_model(out) + seq![e@]);
}


/// Walk `n` offset-table records starting at `header`, `stride` bytes apart.
fn parse_records(blob: &[u8], header: usize, stride: usize, wide: bool, with_flags: bool) -> (out: Vec<ShimcacheEntry>)
    requires
        stride > 0,
    ensures
        entries_model(out@) == record_entries(
            blob@,
            header as int,
            stride as int,
            wide,
            with_flags,
            header_count(blob@),
            0,
        ),
{
    let n = read_header_count(blob);
    let ghost nn = header_count(blob@);
    let ghost full = record_entries(blob@, header as int, stride as int, wide, with_flags, nn, 0);
    let mut out: Vec<ShimcacheEntry> = Vec::new();
    let mut i: u32 = 0;
    let mut base: usize = header;
    proof {
        assert(entries_model(out@) =~= Seq::<EntryModel>::empty());
        assert(entries_model(out@) + full =~= full);
    }
    while i < n
        invariant
            n == nn,
            nn == header_count(blob@),
            full == record_entries(blob@, header as int, stride as int, wide, with_flags, nn, 0),
            stride > 0,
            i <= n,
            base == header + i * stride,
            entries_model(out@) + record_entries(blob@, header as int, stride as int, wide, with_flags, nn, i as nat) == full,
        decreases n - i,
    {
        let ghost rest = record_entries(blob@, header as int, stride as int, wide, with_flags, nn, (i + 1) as nat);
        let path_size = match read_u16(blob, base, 0) {
            Some(ps) => ps,
            None => {
                proof {
                    assert(spec_read_u16(blob@, header + i * stride) is None);
                    assert(record_entries(blob@, header as int, stride as int, wide, with_flags, nn, i as nat) =~= Seq::<EntryModel>::empty());
                    assert(entries_model(out@) + Seq::<EntryModel>::empty() =~= entries_model(out@));
                }
                return out;
            },
        };
        let po = if wide {
            read_u64(blob, base, 8)
        } else {
            match read_u32(blob, base, 4) {
                Some(p) => Some(p as u64),
                None => None,
            }
        };
        let lm = read_u64(blob, base, if wide { 16 } else { 8 });
        let executed = if with_flags {
            match read_u32(blob, base, if wide { 24 } else { 16 }) {
                Some(f) => Some(Some(f & 2 != 0)),
                None => None,
            }
        } else {
            Some(None)
        };
        assert(po == record_path_offset(blob@, base as int, wide));
        assert(lm == record_filetime(blob@, base as int, wide));
        assert(executed == record_executed(blob@, base as int, wide, with_flags));
        match (po, lm, executed) {
            (Some(p), Some(t), Some(ex)) => {
                match read_path(blob, p, path_size as usize, false) {
                    Some(path) => {
                        let e = ShimcacheEntry { path, last_modified_filetime: t, executed: ex };
                        proof {
                            lemma_push_model(out@, e);
                            assert(seq![e@] + rest =~= seq![EntryModel { path: e.path@, last_modified_filetime: t, executed: ex }] + rest);
                            assert(entries_model(out@) + (seq![e@] + rest) =~= entries_model(out@) + seq![e@] + rest);
                        }
                        out.push(e);
                    },
                    None => {},
                }
            },
            _ => {},
        }
        i = i + 1;
        proof {
            assert(base + stride == header + i * stride) by (nonlinear_arith)
                requires
                    base == header + (i - 1) * stride,
            ;
        }
        base = match base.checked_add(stride) {
            Some(b) => b,
            None => {
                proof {
                    if i < n {
                        assert(blob@.len() == blob.len());
                        assert(spec_read_u16(blob@, header + i * stride) is None);
                    }
                    assert(rest =~= Seq::<EntryModel>::empty());
                    assert(entries_model(out@) + Seq::<EntryModel>::empty() =~= entries_model(out@));
                }
                return out;
            },
        };
    }
    out
}

/// Windows 2003/Vista/2008: 8-byte header (signature, count) then fixed records of 24 bytes
/// (32-bit) or 32 bytes (64-bit) whose path lives at an absolute `path_offset`. No execution
/// flag is surfaced.
pub fn parse_2003(blob: &[u8], fmt: ShimcacheFormat) -> (out: Vec<ShimcacheEntry>)
    ensures
        entries_model(out@) == spec_parse_2003(blob@, fmt),
{
    let wide = fmt == ShimcacheFormat::Win2003_64;
    let stride = if wide { WIN2003_ENTRY_64 } else { WIN2003_ENTRY_32 };
    parse_records(blob, WIN2003_HEADER, stride, wide, false)
}

/// Windows 7: 128-byte header, then records of 32 bytes (32-bit) or 48 bytes (64-bit) whose
/// path lives at an absolute `path_offset`; the execution flag is `insertion_flags & 0x2`.
pub fn parse_win7(blob: &[u8], fmt: ShimcacheFormat) -> (out: Vec<ShimcacheEntry>)
    ensures
        entries_model(out@) == spec_parse_win7(blob@, fmt),
{
    let wide = fmt != ShimcacheFormat::Win7_32;
    let stride = if wide { WIN7_ENTRY_64 } else { WIN7_ENTRY_32 };
    parse_records(blob, WIN7_HEADER, stride, wide, true)
}


/// Windows XP: a 400-byte header then fixed 552-byte entries, each a 528-byte NUL-padded
/// UTF-16LE path followed by the last-modification `FILETIME`. XP records no execution flag;
/// an entry with an empty path is skipped.
pub fn parse_xp(blob: &[u8]) -> (out: Vec<ShimcacheEntry>)
    ensures
        entries_model(out@) == xp_entries(blob@, header_count(blob@), 0),
{
    let n = read_header_count(blob);
    let ghost nn = header_count(blob@);
    let ghost full = xp_entries(blob@, nn, 0);
    let mut out: Vec<ShimcacheEntry> = Vec::new();
    let mut i: u32 = 0;
    let mut base: usize = XP_HEADER;
    proof {
        assert(entries_model(out@) + full =~= full);
    }
    while i < n
        invariant
            n == nn,
            nn == header_count(blob@),
            full == xp_entries(blob@, nn, 0),
            i <= n,
            base == XP_HEADER + i * XP_ENTRY,
            entries_model(out@) + xp_entries(blob@, nn, i as nat) == full,
        decreases n - i,
    {
        let ghost rest = xp_entries(blob@, nn, (i + 1) as nat);
        let path = match read_path(blob, base as u64, XP_PATH_BYTES, true) {
            Some(p) => p,
            None => {
                proof {
                    assert(entries_model(out@) + Seq::<EntryModel>::empty() =~= entries_model(out@));
                }
                return out;
            },
        };
        let t = match read_u64(blob, base, XP_PATH_BYTES) {
            Some(t) => t,
            None => {
                proof {
                    assert(entries_model(out@) + Seq::<EntryModel>::empty() =~= entries_model(out@));
                }
                return out;
            },
        };
        if !path.as_str().is_empty() {
            let e = ShimcacheEntry { path, last_modified_filetime: t, executed: None };
            proof {
                lemma_push_model(out@, e);
                assert(entries_model(out@) + (seq![e@] + rest) =~= entries_model(out@) + seq![e@] + rest);
            }
            out.push(e);
        }
        i = i + 1;
        proof {
            assert(base + XP_ENTRY == XP_HEADER + i * XP_ENTRY) by (nonlinear_arith)
                requires
                    base == XP_HEADER + (i - 1) * XP_ENTRY,
            ;
        }
        base = match base.checked_add(XP_ENTRY) {
            Some(b) => b,
            None => {
                proof {
                    assert(blob@.len() == blob.len());
                    assert(rest =~= Seq::<EntryModel>::empty());
                    assert(entries_model(out@) + Seq::<EntryModel>::empty() =~= entries_model(out@));
                }
                return out;
            },
        };
    }
    out
}

/// Windows 8.0/8.1: self-delimiting entries starting at `start`, each beginning with the
/// `00ts`/`10ts` signature and its `cached_entry_data_size`, with the path stored inline.
pub fn parse_win8(blob: &[u8], start: usize, is_8_1: bool) -> (out: Vec<ShimcacheEntry>)
    ensures
        entries_model(out@) == win8_entries(blob@, start as int, is_8_1),
{
    let ghost full = win8_entries(blob@, start as int, is_8_1);
    let mut out: Vec<ShimcacheEntry> = Vec::new();
    let mut off: usize = start;
    proof {
        assert(entries_model(out@) + full =~= full);
    }
    loop
        invariant
            full == win8_entries(blob@, start as int, is_8_1),
            entries_model(out@) + win8_entries(blob@, off as int, is_8_1) == full,
        decreases remaining(blob@.len(), off as int),
    {
        proof {
            assert(entries_model(out@) + Seq::<EntryModel>::empty() =~= entries_model(out@));
            assert(blob@.len() == blob.len());
        }
        if !has_entry_sig(blob, off, is_8_1) {
            return out;
        }
        let data_size = match read_u32(blob, off, 8) {
            Some(d) => d,
            None => return out,
        };
        let body = off + 12;
        let path_size = match read_u16(blob, body, 0) {
            Some(p) => p,
            None => return out,
        };
        let path_start = body + 2;
        let path = match read_path(blob, path_start as u64, path_size as usize, false) {
            Some(p) => p,
            None => return out,
        };
        let after = path_start + path_size as usize;
        let flags = match read_u32(blob, after, 0) {
            Some(f) => f,
            None => 0,
        };
        let t = match read_u64(blob, after, if is_8_1 { 10 } else { 8 }) {
            Some(t) => t,
            None => 0,
        };
        let e = ShimcacheEntry { path, last_modified_filetime: t, executed: Some(flags & 2 != 0) };
        let ghost rest = win8_entries(blob@, body + data_size, is_8_1);
        proof {
            lemma_push_model(out@, e);
            assert(entries_model(out@) + (seq![e@] + rest) =~= entries_model(out@) + seq![e@] + rest);
        }
        out.push(e);
        off = match body.checked_add(data_size as usize) {
            Some(o) => o,
            None => {
                proof {
                    assert(blob@.len() == blob.len());
                    assert(rest =~= Seq::<EntryModel>::empty());
                    assert(entries_model(out@) + Seq::<EntryModel>::empty() =~= entries_model(out@));
                }
                return out;
            },
        };
    }
}

/// Windows 10/11: `10ts` entries from `header_size` on, each with an inline path followed by
/// the last-modification `FILETIME`; the format has no execution flag.
pub fn parse_win10(blob: &[u8], header_size: usize) -> (out: Vec<ShimcacheEntry>)
    ensures
        entries_model(out@) == win10_entries(blob@, header_size as int),
{
    let ghost full = win10_entries(blob@, header_size as int);
    let mut out: Vec<ShimcacheEntry> = Vec::new();
    let mut off: usize = header_size;
    proof {
        assert(entries_model(out@) + full =~= full);
    }
    loop
        invariant
            full == win10_entries(blob@, header_size as int),
            entries_model(out@) + win10_entries(blob@, off as int) == full,
        decreases remaining(blob@.len(), off as int),
    {
        proof {
            assert(entries_model(out@) + Seq::<EntryModel>::empty() =~= entries_model(out@));
            assert(blob@.len() == blob.len());
        }
        if !has_entry_sig(blob, off, true) {
            return out;
        }
        let data_size = match read_u32(blob, off, 8) {
            Some(d) => d,
            None => return out,
        };
        let body = off + 12;
        let path_size = match read_u16(blob, body, 0) {
            Some(p) => p,
            None => return out,
        };
        let path_start = body + 2;
        let path = match read_path(blob, path_start as u64, path_size as usize, false) {
            Some(p) => p,
            None => return out,
        };
        let t = match read_u64(blob, path_start, path_size as usize) {
            Some(t) => t,
            None => 0,
        };
        let e = ShimcacheEntry { path, last_modified_filetime: t, executed: None };
        let ghost rest = win10_entries(blob@, body + data_size);
        proof {
            lemma_push_model(out@, e);
            assert(entries_model(out@) + (seq![e@] + rest) =~= entries_model(out@) + seq![e@] + rest);
        }
        out.push(e);
        off = match body.checked_add(data_size as usize) {
            Some(o) => o,
            None => {
                proof {
                    assert(blob@.len() == blob.len());
                    assert(rest =~= Seq::<EntryModel>::empty());
                    assert(entries_model(out@) + Seq::<EntryModel>::empty() =~= entries_model(out@));
                }
                return out;
            },
        };
    }
}

/// Parse an AppCompatCache value blob into its entries.
///
/// Errors: `TooShort` for a blob without a 4-byte signature, `UnknownSignature` (naming the
/// value) for an unrecognized signature. Individual malformed entries are skipped, not fatal.
pub fn parse(blob: &[u8]) -> (r: Result<Vec<ShimcacheEntry>, ShimcacheError>)
    ensures
        match r {
            Ok(v) => spec_parse(blob@) == Ok::<Seq<EntryModel>, ShimcacheError>(entries_model(v@)),
            Err(e) => spec_parse(blob@) == Err::<Seq<EntryModel>, ShimcacheError>(e),
        },
{
    let sig = match read_u32(blob, 0, 0) {
        Some(s) => s,
        None => return Err(ShimcacheError::TooShort { len: blob.len() }),
    };
    if sig == SIG_WINXP {
        Ok(parse_xp(blob))
    } else if sig == SIG_WIN2003_VISTA {
        Ok(parse_2003(blob, detect_2003_bitness(blob)))
    } else if sig == SIG_WIN7 {
        Ok(parse_win7(blob, detect_win7_bitness(blob)))
    } else if sig == SIG_WIN8 {
        match win8_entry_variant(blob) {
            Some(is_8_1) => Ok(parse_win8(blob, WIN8_HEADER, is_8_1)),
            None => Err(ShimcacheError::UnknownSignature { signature: sig }),
        }
    } else if sig == SIG_WIN10 || sig == SIG_WIN10_CREATORS {
        Ok(parse_win10(blob, sig as usize))
    } else {
        Err(ShimcacheError::UnknownSignature { signature: sig })
    }
}

} // verus!
