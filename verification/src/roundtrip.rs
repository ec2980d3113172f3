//! What a decode gives back of an encode: spec-level encoders of the Windows 10, Windows 8 and
//! Windows 7 (64-bit) layouts, and proofs that `parse` returns exactly the encoded entries.

use vstd::prelude::*;
use crate::bytes::{le16, le32, spec_read_u16, spec_read_u32, spec_read_u64};
use crate::detect::{entry_sig_at, header_count, plausible_path_offset, spec_2003_bitness, spec_detect_format, spec_win7_bitness, SIG_WIN10, SIG_WIN10_CREATORS, SIG_WIN2003_VISTA, SIG_WIN7, SIG_WIN8, SIG_WINXP};
use crate::model::{EntryModel, ShimcacheError, ShimcacheFormat};
use crate::parse::{exec_bit, xp_entries, record_entries, record_executed, record_filetime, record_path_offset, spec_parse, win10_entries, win8_entries};
use crate::utf16::{spec_read_path, strip_device_prefix, until_nul, utf16_lossy, utf16_units};

verus! {

/// Little-endian byte encodings.
pub open spec fn le16_bytes(v: u16) -> Seq<u8> {
    seq![(v % 256) as u8, (v / 256) as u8]
}

pub open spec fn le32_bytes(v: u32) -> Seq<u8> {
    seq![(v % 256) as u8, ((v / 256) % 256) as u8, ((v / 0x1_0000) % 256) as u8, (v / 0x100_0000) as u8]
}

pub open spec fn le64_bytes(v: u64) -> Seq<u8> {
    le32_bytes((v % 0x1_0000_0000) as u32) + le32_bytes((v / 0x1_0000_0000) as u32)
}

proof fn lemma_le16(v: u16)
    ensures
        le16(le16_bytes(v)[0], le16_bytes(v)[1]) == v,
{
}

proof fn lemma_le32_value(v: u32)
    ensures
        le32(le32_bytes(v), 0) == v,
{
    let b = le32_bytes(v);
    assert(b[0] + 0x100 * b[1] + 0x1_0000 * b[2] + 0x100_0000 * b[3] == v);
}

proof fn lemma_le32_at(blob: Seq<u8>, off: int, v: u32)
    requires
        0 <= off,
        off + 4 <= blob.len(),
        blob.subrange(off, off + 4) == le32_bytes(v),
    ensures
        spec_read_u32(blob, off) == Some(v),
{
    lemma_le32_value(v);
    let w = blob.subrange(off, off + 4);
    assert(blob[off] == w[0]);
    assert(blob[off + 1] == w[1]);
    assert(blob[off + 2] == w[2]);
    assert(blob[off + 3] == w[3]);
}


proof fn lemma_le16_at(blob: Seq<u8>, off: int, v: u16)
    requires
        0 <= off,
        off + 2 <= blob.len(),
        blob.subrange(off, off + 2) == le16_bytes(v),
    ensures
        spec_read_u16(blob, off) == Some(v),
{
    lemma_le16(v);
    let w = blob.subrange(off, off + 2);
    assert(blob[off] == w[0]);
    assert(blob[off + 1] == w[1]);
}

proof fn lemma_le64_at(blob: Seq<u8>, off: int, v: u64)
    requires
        0 <= off,
        off + 8 <= blob.len(),
        blob.subrange(off, off + 8) == le64_bytes(v),
    ensures
        spec_read_u64(blob, off) == Some(v),
{
    let lo = (v % 0x1_0000_0000) as u32;
    let hi = (v / 0x1_0000_0000) as u32;
    let w = blob.subrange(off, off + 8);
    assert(blob.subrange(off, off + 4) =~= w.subrange(0, 4));
    assert(w.subrange(0, 4) =~= le32_bytes(lo));
    assert(blob.subrange(off + 4, off + 8) =~= w.subrange(4, 8));
    assert(w.subrange(4, 8) =~= le32_bytes(hi));
    lemma_le32_at(blob, off, lo);
    lemma_le32_at(blob, off + 4, hi);
    assert(le32(blob, off) == lo);
    assert(le32(blob, off + 4) == hi);
    assert(lo + 0x1_0000_0000 * hi == v);
}

/// A piece of an encoded run read back at its position in the blob.
proof fn lemma_window(blob: Seq<u8>, off: int, big: Seq<u8>, i: int, j: int)
    requires
        0 <= off,
        off + big.len() <= blob.len(),
        blob.subrange(off, off + big.len()) == big,
        0 <= i <= j <= big.len(),
    ensures
        blob.subrange(off + i, off + j) == big.subrange(i, j),
{
    assert(blob.subrange(off + i, off + j) =~= big.subrange(i, j)) by {
        assert forall|k: int| 0 <= k < j - i implies blob.subrange(off + i, off + j)[k] == big.subrange(i, j)[k] by {
            assert(blob[off + i + k] == blob.subrange(off, off + big.len())[i + k]);
        }
    }
}


/// The UTF-16LE bytes of a sequence of code units.
pub open spec fn units_bytes(u: Seq<u16>) -> Seq<u8> {
    Seq::new(2 * u.len(), |i: int| if i % 2 == 0 { (u[i / 2] % 256) as u8 } else { (u[i / 2] / 256) as u8 })
}

proof fn lemma_units_roundtrip(u: Seq<u16>)
    ensures
        utf16_units(units_bytes(u)) == u,
{
    let b = units_bytes(u);
    assert forall|k: int| 0 <= k < u.len() implies #[trigger] utf16_units(b)[k] == u[k] by {
        assert((2 * k) % 2 == 0 && (2 * k) / 2 == k);
        assert((2 * k + 1) % 2 == 1 && (2 * k + 1) / 2 == k);
        lemma_le16(u[k]);
    }
    assert(utf16_units(b) =~= u);
}

/// One cache entry to encode: its path as UTF-16 code units, its `FILETIME` and its
/// execution flag.
pub ghost struct EntrySource {
    pub units: Seq<u16>,
    pub filetime: u64,
    pub executed: bool,
}

/// An entry's path fits the `u16` `path_size` field.
pub open spec fn encodable(e: EntrySource) -> bool {
    2 * e.units.len() <= 0xFFFF
}

pub open spec fn all_encodable(es: Seq<EntrySource>) -> bool {
    forall|k: int| 0 <= k < es.len() ==> encodable(#[trigger] es[k])
}

/// What decoding an encoded entry gives back: the decoded path without a device prefix.
pub open spec fn decoded(e: EntrySource, executed: Option<bool>) -> EntryModel {
    EntryModel {
        path: strip_device_prefix(utf16_lossy(e.units)),
        last_modified_filetime: e.filetime,
        executed,
    }
}

/// What decoding a run of encoded entries gives back; `with_flag` says whether the format
/// records the execution flag.
pub open spec fn decoded_seq(es: Seq<EntrySource>, with_flag: bool) -> Seq<EntryModel> {
    Seq::new(es.len(), |k: int| decoded(es[k], if with_flag { Some(es[k].executed) } else { None }))
}

proof fn lemma_decoded_seq_cons(es: Seq<EntrySource>, with_flag: bool)
    requires
        es.len() > 0,
    ensures
        decoded_seq(es, with_flag) == seq![decoded(es[0], if with_flag { Some(es[0].executed) } else { None })]
            + decoded_seq(es.skip(1), with_flag),
{
    assert(decoded_seq(es, with_flag) =~= seq![decoded(es[0], if with_flag { Some(es[0].executed) } else { None })]
        + decoded_seq(es.skip(1), with_flag));
}

/// `10ts`.
pub open spec fn sig_10ts() -> Seq<u8> {
    seq![0x31u8, 0x30u8, 0x74u8, 0x73u8]
}

/// The body of a Windows 10 entry: `path_size`, the path, the `FILETIME` and a zero
/// `data_size`.
pub open spec fn win10_body(e: EntrySource) -> Seq<u8> {
    le16_bytes((2 * e.units.len()) as u16) + units_bytes(e.units) + le64_bytes(e.filetime) + le32_bytes(0)
}

/// A whole Windows 10 entry: `10ts`, 4 unknown bytes, `cached_entry_data_size`, body.
pub open spec fn win10_record(e: EntrySource) -> Seq<u8> {
    sig_10ts() + le32_bytes(0) + le32_bytes(win10_body(e).len() as u32) + win10_body(e)
}

pub open spec fn win10_stream(es: Seq<EntrySource>) -> Seq<u8>
    decreases es.len(),
{
    if es.len() == 0 {
        Seq::empty()
    } else {
        win10_record(es[0]) + win10_stream(es.skip(1))
    }
}

proof fn lemma_win10_record(blob: Seq<u8>, off: int, e: EntrySource)
    requires
        0 <= off,
        encodable(e),
        off + win10_record(e).len() <= blob.len(),
        blob.subrange(off, off + win10_record(e).len()) == win10_record(e),
    ensures
        entry_sig_at(blob, off, true),
        spec_read_u32(blob, off + 8) == Some(win10_body(e).len() as u32),
        spec_read_u16(blob, off + 12) == Some((2 * e.units.len()) as u16),
        spec_read_path(blob, off + 14, 2 * e.units.len() as int, false) == Some(strip_device_prefix(utf16_lossy(e.units))),
        spec_read_u64(blob, off + 14 + 2 * e.units.len()) == Some(e.filetime),
        win10_record(e).len() == 12 + win10_body(e).len(),
        win10_body(e).len() == 14 + 2 * e.units.len(),
{
    let rec = win10_record(e);
    let body = win10_body(e);
    let n: int = 2 * e.units.len() as int;
    assert(units_bytes(e.units).len() == n);
    assert(body.len() == 14 + n);
    assert(rec.len() == 12 + body.len());
    lemma_window(blob, off, rec, 0, 4);
    assert(rec.subrange(0, 4) =~= sig_10ts());
    assert(blob[off] == blob.subrange(off, off + 4)[0]);
    assert(blob[off + 1] == blob.subrange(off, off + 4)[1]);
    assert(blob[off + 2] == blob.subrange(off, off + 4)[2]);
    assert(blob[off + 3] == blob.subrange(off, off + 4)[3]);
    lemma_window(blob, off, rec, 8, 12);
    assert(rec.subrange(8, 12) =~= le32_bytes(body.len() as u32));
    lemma_le32_at(blob, off + 8, body.len() as u32);
    lemma_window(blob, off, rec, 12, 14);
    assert(rec.subrange(12, 14) =~= le16_bytes(n as u16));
    lemma_le16_at(blob, off + 12, n as u16);
    lemma_window(blob, off, rec, 14, 14 + n);
    assert(rec.subrange(14, 14 + n) =~= units_bytes(e.units));
    lemma_units_roundtrip(e.units);
    lemma_window(blob, off, rec, 14 + n, 22 + n);
    assert(rec.subrange(14 + n, 22 + n) =~= le64_bytes(e.filetime));
    lemma_le64_at(blob, off + 14 + n, e.filetime);
}

proof fn lemma_win10_step(blob: Seq<u8>, off: int, e: EntrySource)
    requires
        0 <= off,
        encodable(e),
        off + win10_record(e).len() <= blob.len(),
        blob.subrange(off, off + win10_record(e).len()) == win10_record(e),
    ensures
        win10_entries(blob, off) == seq![decoded(e, None)] + win10_entries(blob, off + win10_record(e).len()),
{
    lemma_win10_record(blob, off, e);
}

#[verifier::spinoff_prover]
#[verifier::rlimit(40)]
proof fn lemma_win10_stream(p: Seq<u8>, es: Seq<EntrySource>)
    requires
        all_encodable(es),
    ensures
        win10_entries(p + win10_stream(es), p.len() as int) == decoded_seq(es, false),
    decreases es.len(),
{
    let blob = p + win10_stream(es);
    if es.len() == 0 {
        assert(decoded_seq(es, false) =~= Seq::<EntryModel>::empty());
    } else {
        let e = es[0];
        let rest = es.skip(1);
        let rec = win10_record(e);
        assert(encodable(e));
        assert(all_encodable(rest)) by {
            assert forall|k: int| 0 <= k < rest.len() implies encodable(#[trigger] rest[k]) by {
                assert(rest[k] == es[k + 1]);
            }
        }
        assert(win10_stream(es) == rec + win10_stream(rest));
        assert(blob =~= (p + rec) + win10_stream(rest));
        assert(blob.subrange(p.len() as int, p.len() + rec.len() as int) =~= rec);
        lemma_win10_step(blob, p.len() as int, e);
        lemma_win10_stream(p + rec, rest);
        assert((p + rec).len() == p.len() + rec.len());
        lemma_decoded_seq_cons(es, false);
    }
}


/// `n` zero bytes.
pub open spec fn zeros(n: nat) -> Seq<u8> {
    Seq::new(n, |i: int| 0u8)
}

/// A Windows 10 cache: the signature (also the header size) padded to the header size, then
/// the encoded entries.
pub open spec fn win10_blob(sig: u32, es: Seq<EntrySource>) -> Seq<u8> {
    le32_bytes(sig) + zeros((sig - 4) as nat) + win10_stream(es)
}

/// Decoding a Windows 10 cache gives back exactly the encoded entries, in order: each path
/// decoded from its UTF-16 units (without a leading `\??\`), each `FILETIME`, and no execution
/// flag.
pub proof fn law_win10_decode_returns_encoded(sig: u32, es: Seq<EntrySource>)
    requires
        sig == SIG_WIN10 || sig == SIG_WIN10_CREATORS,
        all_encodable(es),
    ensures
        spec_detect_format(win10_blob(sig, es)) == Some(ShimcacheFormat::Win10),
        spec_parse(win10_blob(sig, es)) == Ok::<Seq<EntryModel>, ShimcacheError>(
            decoded_seq(es, false),
        ),
{
    let header = le32_bytes(sig) + zeros((sig - 4) as nat);
    let blob = win10_blob(sig, es);
    assert(blob =~= header + win10_stream(es));
    assert(header.len() == sig);
    assert(blob.subrange(0, 4) =~= le32_bytes(sig));
    lemma_le32_at(blob, 0, sig);
    lemma_win10_stream(header, es);
}

/// The body of a Windows 8 entry: `path_size`, the path, insertion flags (`2` when executed),
/// shim flags, 2 unknown bytes on 8.1, the `FILETIME` and a zero `data_size`.
pub open spec fn win8_body(e: EntrySource, v8_1: bool) -> Seq<u8> {
    le16_bytes((2 * e.units.len()) as u16) + units_bytes(e.units) + le32_bytes(
        if e.executed { 2 } else { 0 },
    ) + le32_bytes(0) + zeros(if v8_1 { 2 } else { 0 }) + le64_bytes(e.filetime) + le32_bytes(0)
}

/// The entry signature: `10ts` on 8.1, `00ts` on 8.0.
pub open spec fn win8_sig(v8_1: bool) -> Seq<u8> {
    seq![if v8_1 { 0x31u8 } else { 0x30u8 }, 0x30u8, 0x74u8, 0x73u8]
}

pub open spec fn win8_record(e: EntrySource, v8_1: bool) -> Seq<u8> {
    win8_sig(v8_1) + le32_bytes(0) + le32_bytes(win8_body(e, v8_1).len() as u32) + win8_body(e, v8_1)
}

pub open spec fn win8_stream(es: Seq<EntrySource>, v8_1: bool) -> Seq<u8>
    decreases es.len(),
{
    if es.len() == 0 {
        Seq::empty()
    } else {
        win8_record(es[0], v8_1) + win8_stream(es.skip(1), v8_1)
    }
}

proof fn lemma_exec_bits()
    ensures
        exec_bit(2),
        !exec_bit(0),
{
    assert((2u32 & 2u32) != 0u32) by (bit_vector);
    assert((0u32 & 2u32) == 0u32) by (bit_vector);
}

proof fn lemma_win8_record(blob: Seq<u8>, off: int, e: EntrySource, v8_1: bool)
    requires
        0 <= off,
        encodable(e),
        off + win8_record(e, v8_1).len() <= blob.len(),
        blob.subrange(off, off + win8_record(e, v8_1).len()) == win8_record(e, v8_1),
    ensures
        entry_sig_at(blob, off, v8_1),
        spec_read_u32(blob, off + 8) == Some(win8_body(e, v8_1).len() as u32),
        spec_read_u16(blob, off + 12) == Some((2 * e.units.len()) as u16),
        spec_read_path(blob, off + 14, 2 * e.units.len() as int, false) == Some(strip_device_prefix(utf16_lossy(e.units))),
        spec_read_u32(blob, off + 14 + 2 * e.units.len()) == Some(if e.executed { 2u32 } else { 0u32 }),
        spec_read_u64(blob, off + 14 + 2 * e.units.len() + (if v8_1 { 10int } else { 8int })) == Some(e.filetime),
        win8_record(e, v8_1).len() == 12 + win8_body(e, v8_1).len(),
{
    let rec = win8_record(e, v8_1);
    let body = win8_body(e, v8_1);
    let n: int = 2 * e.units.len() as int;
    let pad: int = if v8_1 { 2 } else { 0 };
    let flags: u32 = if e.executed { 2 } else { 0 };
    assert(units_bytes(e.units).len() == n);
    assert(body.len() == 22 + n + pad);
    assert(rec.len() == 12 + body.len());
    lemma_window(blob, off, rec, 0, 4);
    assert(rec.subrange(0, 4) =~= win8_sig(v8_1));
    assert(blob[off] == blob.subrange(off, off + 4)[0]);
    assert(blob[off + 1] == blob.subrange(off, off + 4)[1]);
    assert(blob[off + 2] == blob.subrange(off, off + 4)[2]);
    assert(blob[off + 3] == blob.subrange(off, off + 4)[3]);
    lemma_window(blob, off, rec, 8, 12);
    assert(rec.subrange(8, 12) =~= le32_bytes(body.len() as u32));
    lemma_le32_at(blob, off + 8, body.len() as u32);
    lemma_window(blob, off, rec, 12, 14);
    assert(rec.subrange(12, 14) =~= le16_bytes(n as u16));
    lemma_le16_at(blob, off + 12, n as u16);
    lemma_window(blob, off, rec, 14, 14 + n);
    assert(rec.subrange(14, 14 + n) =~= units_bytes(e.units));
    lemma_units_roundtrip(e.units);
    lemma_window(blob, off, rec, 14 + n, 18 + n);
    assert(rec.subrange(14 + n, 18 + n) =~= le32_bytes(flags));
    lemma_le32_at(blob, off + 14 + n, flags);
    lemma_window(blob, off, rec, 22 + n + pad, 30 + n + pad);
    assert(rec.subrange(22 + n + pad, 30 + n + pad) =~= le64_bytes(e.filetime));
    lemma_le64_at(blob, off + 22 + n + pad, e.filetime);
}

proof fn lemma_win8_step(blob: Seq<u8>, off: int, e: EntrySource, v8_1: bool)
    requires
        0 <= off,
        encodable(e),
        off + win8_record(e, v8_1).len() <= blob.len(),
        blob.subrange(off, off + win8_record(e, v8_1).len()) == win8_record(e, v8_1),
    ensures
        win8_entries(blob, off, v8_1) == seq![decoded(e, Some(e.executed))]
            + win8_entries(blob, off + win8_record(e, v8_1).len(), v8_1),
{
    lemma_win8_record(blob, off, e, v8_1);
    lemma_exec_bits();
}

#[verifier::spinoff_prover]
#[verifier::rlimit(40)]
proof fn lemma_win8_stream(p: Seq<u8>, es: Seq<EntrySource>, v8_1: bool)
    requires
        all_encodable(es),
    ensures
        win8_entries(p + win8_stream(es, v8_1), p.len() as int, v8_1)
            == decoded_seq(es, true),
    decreases es.len(),
{
    let blob = p + win8_stream(es, v8_1);
    if es.len() == 0 {
        assert(decoded_seq(es, true) =~= Seq::<EntryModel>::empty());
    } else {
        let e = es[0];
        let rest = es.skip(1);
        let rec = win8_record(e, v8_1);
        assert(encodable(e));
        assert(all_encodable(rest)) by {
            assert forall|k: int| 0 <= k < rest.len() implies encodable(#[trigger] rest[k]) by {
                assert(rest[k] == es[k + 1]);
            }
        }
        assert(win8_stream(es, v8_1) == rec + win8_stream(rest, v8_1));
        assert(blob =~= (p + rec) + win8_stream(rest, v8_1));
        assert(blob.subrange(p.len() as int, p.len() + rec.len() as int) =~= rec);
        lemma_win8_step(blob, p.len() as int, e, v8_1);
        lemma_win8_stream(p + rec, rest, v8_1);
        assert((p + rec).len() == p.len() + rec.len());
        lemma_decoded_seq_cons(es, true);
    }
}

/// A Windows 8 cache: the `0x80` signature padded to 128 bytes, then the encoded entries.
pub open spec fn win8_blob(es: Seq<EntrySource>, v8_1: bool) -> Seq<u8> {
    le32_bytes(SIG_WIN8) + zeros(124) + win8_stream(es, v8_1)
}

/// Decoding a Windows 8.0/8.1 cache with at least one entry gives back exactly the encoded
/// entries, in order, each with its execution flag; the first entry's signature selects 8.0
/// or 8.1.
#[verifier::spinoff_prover]
#[verifier::rlimit(40)]
pub proof fn law_win8_decode_returns_encoded(es: Seq<EntrySource>, v8_1: bool)
    requires
        es.len() > 0,
        all_encodable(es),
    ensures
        spec_detect_format(win8_blob(es, v8_1)) == Some(
            if v8_1 { ShimcacheFormat::Win8_1 } else { ShimcacheFormat::Win8_0 },
        ),
        spec_parse(win8_blob(es, v8_1)) == Ok::<Seq<EntryModel>, ShimcacheError>(
            decoded_seq(es, true),
        ),
{
    let header = le32_bytes(SIG_WIN8) + zeros(124);
    let blob = win8_blob(es, v8_1);
    assert(blob =~= header + win8_stream(es, v8_1));
    assert(header.len() == 128);
    assert(blob.subrange(0, 4) =~= le32_bytes(SIG_WIN8));
    lemma_le32_at(blob, 0, SIG_WIN8);
    lemma_win8_stream(header, es, v8_1);
    let e = es[0];
    let rec = win8_record(e, v8_1);
    assert(encodable(e));
    assert(win8_stream(es, v8_1) =~= rec + win8_stream(es.skip(1), v8_1));
    assert(blob.subrange(128, 128 + rec.len() as int) =~= rec);
    lemma_win8_record(blob, 128, e, v8_1);
    assert(!entry_sig_at(blob, 128, !v8_1));
}


// ── Self-delimiting entries that carry a data field ─────────────────────────────────────────

/// An entry's data field fits a `u32` `data_size`, with room for the rest of the body in the
/// `u32` `cached_entry_data_size`.
pub open spec fn data_fits(d: Seq<u8>) -> bool {
    d.len() <= 0xFFFE_0000
}

/// A data field for each entry, each of which fits.
pub open spec fn data_for(es: Seq<EntrySource>, ds: Seq<Seq<u8>>) -> bool {
    &&& ds.len() == es.len()
    &&& forall|k: int| 0 <= k < ds.len() ==> data_fits(#[trigger] ds[k])
}

/// The body of a Windows 10 entry whose data field is `d`: `path_size`, the path, the
/// `FILETIME`, `data_size` and the data bytes.
pub open spec fn win10_data_body(e: EntrySource, d: Seq<u8>) -> Seq<u8> {
    le16_bytes((2 * e.units.len()) as u16) + units_bytes(e.units) + le64_bytes(e.filetime)
        + le32_bytes(d.len() as u32) + d
}

/// A whole Windows 10 entry with data: `10ts`, 4 unknown bytes, `cached_entry_data_size` (the
/// body's length), then the body.
pub open spec fn win10_data_record(e: EntrySource, d: Seq<u8>) -> Seq<u8> {
    sig_10ts() + le32_bytes(0) + le32_bytes(win10_data_body(e, d).len() as u32) + win10_data_body(e, d)
}

pub open spec fn win10_data_stream(es: Seq<EntrySource>, ds: Seq<Seq<u8>>) -> Seq<u8>
    decreases es.len(),
{
    if es.len() == 0 {
        Seq::empty()
    } else {
        win10_data_record(es[0], ds[0]) + win10_data_stream(es.skip(1), ds.skip(1))
    }
}

/// A Windows 10 cache whose entries carry data fields.
pub open spec fn win10_data_blob(sig: u32, es: Seq<EntrySource>, ds: Seq<Seq<u8>>) -> Seq<u8> {
    le32_bytes(sig) + zeros((sig - 4) as nat) + win10_data_stream(es, ds)
}

proof fn lemma_win10_data_step(blob: Seq<u8>, off: int, e: EntrySource, d: Seq<u8>)
    requires
        0 <= off,
        encodable(e),
        data_fits(d),
        off + win10_data_record(e, d).len() <= blob.len(),
        blob.subrange(off, off + win10_data_record(e, d).len()) == win10_data_record(e, d),
    ensures
        win10_entries(blob, off) == seq![decoded(e, None)] + win10_entries(blob, off + win10_data_record(e, d).len()),
{
    let rec = win10_data_record(e, d);
    let body = win10_data_body(e, d);
    let n: int = 2 * e.units.len() as int;
    assert(units_bytes(e.units).len() == n);
    assert(body.len() == 14 + n + d.len());
    assert(rec.len() == 12 + body.len());
    lemma_window(blob, off, rec, 0, 4);
    assert(rec.subrange(0, 4) =~= sig_10ts());
    assert(blob[off] == blob.subrange(off, off + 4)[0]);
    assert(blob[off + 1] == blob.subrange(off, off + 4)[1]);
    assert(blob[off + 2] == blob.subrange(off, off + 4)[2]);
    assert(blob[off + 3] == blob.subrange(off, off + 4)[3]);
    lemma_window(blob, off, rec, 8, 12);
    assert(rec.subrange(8, 12) =~= le32_bytes(body.len() as u32));
    lemma_le32_at(blob, off + 8, body.len() as u32);
    lemma_window(blob, off, rec, 12, 14);
    assert(rec.subrange(12, 14) =~= le16_bytes(n as u16));
    lemma_le16_at(blob, off + 12, n as u16);
    lemma_window(blob, off, rec, 14, 14 + n);
    assert(rec.subrange(14, 14 + n) =~= units_bytes(e.units));
    lemma_units_roundtrip(e.units);
    lemma_window(blob, off, rec, 14 + n, 22 + n);
    assert(rec.subrange(14 + n, 22 + n) =~= le64_bytes(e.filetime));
    lemma_le64_at(blob, off + 14 + n, e.filetime);
}

proof fn lemma_data_for_skip(es: Seq<EntrySource>, ds: Seq<Seq<u8>>)
    requires
        all_encodable(es),
        data_for(es, ds),
        es.len() > 0,
    ensures
        all_encodable(es.skip(1)),
        data_for(es.skip(1), ds.skip(1)),
        encodable(es[0]),
        data_fits(ds[0]),
{
    lemma_all_encodable_skip(es);
    assert forall|k: int| 0 <= k < ds.skip(1).len() implies data_fits(#[trigger] ds.skip(1)[k]) by {
        assert(ds.skip(1)[k] == ds[k + 1]);
    }
}

#[verifier::spinoff_prover]
#[verifier::rlimit(40)]
proof fn lemma_win10_data_stream(p: Seq<u8>, es: Seq<EntrySource>, ds: Seq<Seq<u8>>)
    requires
        all_encodable(es),
        data_for(es, ds),
    ensures
        win10_entries(p + win10_data_stream(es, ds), p.len() as int) == decoded_seq(es, false),
    decreases es.len(),
{
    let blob = p + win10_data_stream(es, ds);
    if es.len() == 0 {
        assert(decoded_seq(es, false) =~= Seq::<EntryModel>::empty());
    } else {
        let rec = win10_data_record(es[0], ds[0]);
        lemma_data_for_skip(es, ds);
        assert(win10_data_stream(es, ds) == rec + win10_data_stream(es.skip(1), ds.skip(1)));
        assert(blob =~= (p + rec) + win10_data_stream(es.skip(1), ds.skip(1)));
        assert(blob.subrange(p.len() as int, p.len() + rec.len() as int) =~= rec);
        lemma_win10_data_step(blob, p.len() as int, es[0], ds[0]);
        lemma_win10_data_stream(p + rec, es.skip(1), ds.skip(1));
        assert((p + rec).len() == p.len() + rec.len());
        lemma_decoded_seq_cons(es, false);
    }
}

/// Decoding a Windows 10 cache whose entries carry data fields of any length gives back
/// exactly the encoded entries, in order: each entry ends where its `cached_entry_data_size`
/// says, so the next one is found whatever its predecessor's data holds.
pub proof fn law_win10_decode_steps_over_entry_data(sig: u32, es: Seq<EntrySource>, ds: Seq<Seq<u8>>)
    requires
        sig == SIG_WIN10 || sig == SIG_WIN10_CREATORS,
        all_encodable(es),
        data_for(es, ds),
    ensures
        spec_detect_format(win10_data_blob(sig, es, ds)) == Some(ShimcacheFormat::Win10),
        spec_parse(win10_data_blob(sig, es, ds)) == Ok::<Seq<EntryModel>, ShimcacheError>(
            decoded_seq(es, false),
        ),
{
    let header = le32_bytes(sig) + zeros((sig - 4) as nat);
    let blob = win10_data_blob(sig, es, ds);
    assert(blob =~= header + win10_data_stream(es, ds));
    assert(header.len() == sig);
    assert(blob.subrange(0, 4) =~= le32_bytes(sig));
    lemma_le32_at(blob, 0, sig);
    lemma_win10_data_stream(header, es, ds);
}

/// The fixed part of a Windows 8 entry's body: `path_size`, the path, insertion flags (`2`
/// when executed), shim flags, 2 unknown bytes on 8.1 and the `FILETIME`.
pub open spec fn win8_fixed(e: EntrySource, v8_1: bool) -> Seq<u8> {
    le16_bytes((2 * e.units.len()) as u16) + units_bytes(e.units) + le32_bytes(
        if e.executed { 2 } else { 0 },
    ) + le32_bytes(0) + zeros(if v8_1 { 2 } else { 0 }) + le64_bytes(e.filetime)
}

/// The body of a Windows 8 entry whose data field is `d`: the fixed part, `data_size` and the
/// data bytes.
pub open spec fn win8_data_body(e: EntrySource, d: Seq<u8>, v8_1: bool) -> Seq<u8> {
    win8_fixed(e, v8_1) + le32_bytes(d.len() as u32) + d
}

pub open spec fn win8_data_record(e: EntrySource, d: Seq<u8>, v8_1: bool) -> Seq<u8> {
    win8_sig(v8_1) + le32_bytes(0) + le32_bytes(win8_data_body(e, d, v8_1).len() as u32)
        + win8_data_body(e, d, v8_1)
}

pub open spec fn win8_data_stream(es: Seq<EntrySource>, ds: Seq<Seq<u8>>, v8_1: bool) -> Seq<u8>
    decreases es.len(),
{
    if es.len() == 0 {
        Seq::empty()
    } else {
        win8_data_record(es[0], ds[0], v8_1) + win8_data_stream(es.skip(1), ds.skip(1), v8_1)
    }
}

/// A Windows 8 cache whose entries carry data fields.
pub open spec fn win8_data_blob(es: Seq<EntrySource>, ds: Seq<Seq<u8>>, v8_1: bool) -> Seq<u8> {
    le32_bytes(SIG_WIN8) + zeros(124) + win8_data_stream(es, ds, v8_1)
}

/// The middle piece of a three-part concatenation.
proof fn lemma_mid(a: Seq<u8>, b: Seq<u8>, c: Seq<u8>)
    ensures
        (a + b + c).subrange(a.len() as int, (a.len() + b.len()) as int) == b,
{
    assert((a + b + c).subrange(a.len() as int, (a.len() + b.len()) as int) =~= b);
}

#[verifier::spinoff_prover]
#[verifier::rlimit(80)]
proof fn lemma_win8_data_record(blob: Seq<u8>, off: int, e: EntrySource, d: Seq<u8>, v8_1: bool)
    requires
        0 <= off,
        encodable(e),
        data_fits(d),
        off + win8_data_record(e, d, v8_1).len() <= blob.len(),
        blob.subrange(off, off + win8_data_record(e, d, v8_1).len()) == win8_data_record(e, d, v8_1),
    ensures
        entry_sig_at(blob, off, v8_1),
        spec_read_u32(blob, off + 8) == Some(win8_data_body(e, d, v8_1).len() as u32),
        spec_read_u16(blob, off + 12) == Some((2 * e.units.len()) as u16),
        spec_read_path(blob, off + 14, 2 * e.units.len() as int, false) == Some(strip_device_prefix(utf16_lossy(e.units))),
        spec_read_u32(blob, off + 14 + 2 * e.units.len()) == Some(if e.executed { 2u32 } else { 0u32 }),
        spec_read_u64(blob, off + 14 + 2 * e.units.len() + (if v8_1 { 10int } else { 8int })) == Some(e.filetime),
        win8_data_record(e, d, v8_1).len() == 12 + win8_data_body(e, d, v8_1).len(),
{
    let rec = win8_data_record(e, d, v8_1);
    let body = win8_data_body(e, d, v8_1);
    let f = win8_fixed(e, v8_1);
    let tail = le32_bytes(d.len() as u32) + d;
    let n: int = 2 * e.units.len() as int;
    let pad: int = if v8_1 { 2 } else { 0 };
    let flags: u32 = if e.executed { 2 } else { 0 };
    assert(units_bytes(e.units).len() == n);
    assert(f.len() == 18 + n + pad);
    assert(body =~= f + tail);
    assert(body.len() == f.len() + 4 + d.len());
    let head = win8_sig(v8_1) + le32_bytes(0) + le32_bytes(body.len() as u32);
    assert(rec =~= head + f + tail);
    assert(rec.len() == 12 + body.len());
    lemma_mid(head, f, tail);
    lemma_mid(win8_sig(v8_1) + le32_bytes(0), le32_bytes(body.len() as u32), f + tail);
    assert(rec =~= (win8_sig(v8_1) + le32_bytes(0)) + le32_bytes(body.len() as u32) + (f + tail));
    lemma_mid(Seq::empty(), win8_sig(v8_1), le32_bytes(0) + le32_bytes(body.len() as u32) + (f + tail));
    assert(rec =~= Seq::<u8>::empty() + win8_sig(v8_1) + (le32_bytes(0) + le32_bytes(body.len() as u32) + (f + tail)));
    lemma_window(blob, off, rec, 0, 4);
    assert(blob[off] == blob.subrange(off, off + 4)[0]);
    assert(blob[off + 1] == blob.subrange(off, off + 4)[1]);
    assert(blob[off + 2] == blob.subrange(off, off + 4)[2]);
    assert(blob[off + 3] == blob.subrange(off, off + 4)[3]);
    lemma_window(blob, off, rec, 8, 12);
    lemma_le32_at(blob, off + 8, body.len() as u32);
    lemma_window(blob, off, rec, 12, 12 + f.len() as int);
    let fo = off + 12;
    assert(f.subrange(0, 2) =~= le16_bytes(n as u16));
    lemma_window(blob, fo, f, 0, 2);
    lemma_le16_at(blob, fo, n as u16);
    assert(f.subrange(2, 2 + n) =~= units_bytes(e.units));
    lemma_window(blob, fo, f, 2, 2 + n);
    lemma_units_roundtrip(e.units);
    assert(f.subrange(2 + n, 6 + n) =~= le32_bytes(flags));
    lemma_window(blob, fo, f, 2 + n, 6 + n);
    lemma_le32_at(blob, fo + 2 + n, flags);
    assert(f.subrange(10 + n + pad, 18 + n + pad) =~= le64_bytes(e.filetime));
    lemma_window(blob, fo, f, 10 + n + pad, 18 + n + pad);
    lemma_le64_at(blob, fo + 10 + n + pad, e.filetime);
}

proof fn lemma_win8_data_step(blob: Seq<u8>, off: int, e: EntrySource, d: Seq<u8>, v8_1: bool)
    requires
        0 <= off,
        encodable(e),
        data_fits(d),
        off + win8_data_record(e, d, v8_1).len() <= blob.len(),
        blob.subrange(off, off + win8_data_record(e, d, v8_1).len()) == win8_data_record(e, d, v8_1),
    ensures
        entry_sig_at(blob, off, v8_1),
        !entry_sig_at(blob, off, !v8_1),
        win8_entries(blob, off, v8_1) == seq![decoded(e, Some(e.executed))]
            + win8_entries(blob, off + win8_data_record(e, d, v8_1).len(), v8_1),
{
    lemma_win8_data_record(blob, off, e, d, v8_1);
    lemma_exec_bits();
}

#[verifier::spinoff_prover]
#[verifier::rlimit(40)]
proof fn lemma_win8_data_stream(p: Seq<u8>, es: Seq<EntrySource>, ds: Seq<Seq<u8>>, v8_1: bool)
    requires
        all_encodable(es),
        data_for(es, ds),
    ensures
        win8_entries(p + win8_data_stream(es, ds, v8_1), p.len() as int, v8_1) == decoded_seq(es, true),
    decreases es.len(),
{
    let blob = p + win8_data_stream(es, ds, v8_1);
    if es.len() == 0 {
        assert(decoded_seq(es, true) =~= Seq::<EntryModel>::empty());
    } else {
        let rec = win8_data_record(es[0], ds[0], v8_1);
        lemma_data_for_skip(es, ds);
        assert(win8_data_stream(es, ds, v8_1) == rec + win8_data_stream(es.skip(1), ds.skip(1), v8_1));
        assert(blob =~= (p + rec) + win8_data_stream(es.skip(1), ds.skip(1), v8_1));
        assert(blob.subrange(p.len() as int, p.len() + rec.len() as int) =~= rec);
        lemma_win8_data_step(blob, p.len() as int, es[0], ds[0], v8_1);
        lemma_win8_data_stream(p + rec, es.skip(1), ds.skip(1), v8_1);
        assert((p + rec).len() == p.len() + rec.len());
        lemma_decoded_seq_cons(es, true);
    }
}

/// Decoding a Windows 8.0/8.1 cache whose entries carry data fields of any length gives back
/// exactly the encoded entries, in order, with their execution flags: each entry ends where
/// its `cached_entry_data_size` says, whatever its data holds.
#[verifier::spinoff_prover]
#[verifier::rlimit(40)]
pub proof fn law_win8_decode_steps_over_entry_data(es: Seq<EntrySource>, ds: Seq<Seq<u8>>, v8_1: bool)
    requires
        es.len() > 0,
        all_encodable(es),
        data_for(es, ds),
    ensures
        spec_detect_format(win8_data_blob(es, ds, v8_1)) == Some(
            if v8_1 { ShimcacheFormat::Win8_1 } else { ShimcacheFormat::Win8_0 },
        ),
        spec_parse(win8_data_blob(es, ds, v8_1)) == Ok::<Seq<EntryModel>, ShimcacheError>(
            decoded_seq(es, true),
        ),
{
    let header = le32_bytes(SIG_WIN8) + zeros(124);
    let blob = win8_data_blob(es, ds, v8_1);
    assert(blob =~= header + win8_data_stream(es, ds, v8_1));
    assert(header.len() == 128);
    assert(blob.subrange(0, 4) =~= le32_bytes(SIG_WIN8));
    lemma_le32_at(blob, 0, SIG_WIN8);
    lemma_win8_data_stream(header, es, ds, v8_1);
    let rec = win8_data_record(es[0], ds[0], v8_1);
    lemma_data_for_skip(es, ds);
    assert(win8_data_stream(es, ds, v8_1) =~= rec + win8_data_stream(es.skip(1), ds.skip(1), v8_1));
    assert(blob.subrange(128, 128 + rec.len() as int) =~= rec);
    lemma_win8_data_step(blob, 128, es[0], ds[0], v8_1);
}


proof fn lemma_all_encodable_skip(es: Seq<EntrySource>)
    requires
        all_encodable(es),
        es.len() > 0,
    ensures
        all_encodable(es.skip(1)),
        encodable(es[0]),
{
    assert forall|k: int| 0 <= k < es.skip(1).len() implies encodable(#[trigger] es.skip(1)[k]) by {
        assert(es.skip(1)[k] == es[k + 1]);
    }
}

/// The fixed fields of an offset-table record: `path_size` and `max_path_size`, then either
/// (wide, 64-bit) 4 padding bytes and a `u64` path offset, or (narrow, 32-bit) a `u32` path
/// offset, then the `FILETIME`.
pub open spec fn table_fixed(e: EntrySource, po: u64, wide: bool) -> Seq<u8> {
    let size = le16_bytes((2 * e.units.len()) as u16);
    if wide {
        size + size + zeros(4) + le64_bytes(po) + le64_bytes(e.filetime)
    } else {
        size + size + le32_bytes(po as u32) + le64_bytes(e.filetime)
    }
}

/// The insertion flags of layouts that record them (`2` when executed).
pub open spec fn table_flags(e: EntrySource, with_flags: bool) -> Seq<u8> {
    if with_flags {
        le32_bytes(if e.executed { 2u32 } else { 0u32 })
    } else {
        Seq::empty()
    }
}

/// A whole offset-table record, zero-padded to the layout's stride.
pub open spec fn table_record(e: EntrySource, po: u64, stride: nat, wide: bool, with_flags: bool) -> Seq<u8> {
    let head = table_fixed(e, po, wide) + table_flags(e, with_flags);
    head + zeros((stride - head.len()) as nat)
}

/// The record strides this encoding supports: room for the fixed fields and the flags.
pub open spec fn layout_ok(stride: nat, wide: bool, with_flags: bool) -> bool {
    &&& stride >= (if wide { 24nat } else { 16nat }) + (if with_flags { 4nat } else { 0nat })
    &&& stride <= 64
}

/// Where each entry's path starts, relative to the path region.
pub open spec fn path_start(es: Seq<EntrySource>, k: int) -> int
    decreases k,
{
    if k <= 0 || es.len() == 0 {
        0
    } else {
        2 * es[0].units.len() + path_start(es.skip(1), k - 1)
    }
}

/// The records of a run of entries whose path region starts at `po`.
pub open spec fn table_records(es: Seq<EntrySource>, po: int, stride: nat, wide: bool, with_flags: bool) -> Seq<u8>
    decreases es.len(),
{
    if es.len() == 0 {
        Seq::empty()
    } else {
        table_record(es[0], po as u64, stride, wide, with_flags) + table_records(
            es.skip(1),
            po + 2 * es[0].units.len(),
            stride,
            wide,
            with_flags,
        )
    }
}

/// The path region: every entry's UTF-16LE path, back to back.
pub open spec fn path_region(es: Seq<EntrySource>) -> Seq<u8>
    decreases es.len(),
{
    if es.len() == 0 {
        Seq::empty()
    } else {
        units_bytes(es[0].units) + path_region(es.skip(1))
    }
}

/// An offset-table cache: the header, the records, then the path region they point into.
pub open spec fn table_blob(header: Seq<u8>, es: Seq<EntrySource>, stride: nat, wide: bool, with_flags: bool) -> Seq<u8> {
    header + table_records(es, (header.len() + stride * es.len()) as int, stride, wide, with_flags) + path_region(es)
}

/// The 128-byte Windows 7 header: signature and entry count.
pub open spec fn win7_header(n: nat) -> Seq<u8> {
    le32_bytes(SIG_WIN7) + le32_bytes(n as u32) + zeros(120)
}

/// The 8-byte Windows 2003/Vista header: signature and entry count.
pub open spec fn win2003_header(n: nat) -> Seq<u8> {
    le32_bytes(SIG_WIN2003_VISTA) + le32_bytes(n as u32)
}

proof fn lemma_table_record_len(e: EntrySource, po: u64, stride: nat, wide: bool, with_flags: bool)
    requires
        layout_ok(stride, wide, with_flags),
    ensures
        table_record(e, po, stride, wide, with_flags).len() == stride,
{
}

proof fn lemma_path_region(es: Seq<EntrySource>, k: int)
    requires
        0 <= k < es.len(),
    ensures
        0 <= path_start(es, k),
        path_start(es, k) + 2 * es[k].units.len() <= path_region(es).len(),
        path_region(es).subrange(path_start(es, k), path_start(es, k) + 2 * es[k].units.len())
            == units_bytes(es[k].units),
    decreases k,
{
    let rest = es.skip(1);
    let first = units_bytes(es[0].units);
    assert(path_region(es) == first + path_region(rest));
    if k == 0 {
        assert(path_region(es).subrange(0, 2 * es[0].units.len() as int) =~= first);
    } else {
        lemma_path_region(rest, k - 1);
        assert(rest[k - 1] == es[k]);
        let a = path_start(rest, k - 1);
        let b = a + 2 * es[k].units.len();
        assert(path_region(es).subrange(first.len() + a, first.len() + b)
            =~= path_region(rest).subrange(a, b));
    }
}

proof fn lemma_path_region_len(es: Seq<EntrySource>)
    requires
        all_encodable(es),
    ensures
        path_region(es).len() <= 0xFFFF * es.len(),
    decreases es.len(),
{
    if es.len() > 0 {
        lemma_all_encodable_skip(es);
        lemma_path_region_len(es.skip(1));
    }
}

proof fn lemma_table_records_len(es: Seq<EntrySource>, po: int, stride: nat, wide: bool, with_flags: bool)
    requires
        layout_ok(stride, wide, with_flags),
    ensures
        table_records(es, po, stride, wide, with_flags).len() == stride * es.len(),
    decreases es.len(),
{
    if es.len() > 0 {
        lemma_table_record_len(es[0], po as u64, stride, wide, with_flags);
        lemma_table_records_len(es.skip(1), po + 2 * es[0].units.len(), stride, wide, with_flags);
        assert(stride * es.len() == stride + stride * (es.len() - 1)) by (nonlinear_arith)
            requires
                es.len() > 0,
        ;
    }
}

#[verifier::spinoff_prover]
#[verifier::rlimit(40)]
proof fn lemma_table_records(es: Seq<EntrySource>, po: int, stride: nat, wide: bool, with_flags: bool, k: int)
    requires
        layout_ok(stride, wide, with_flags),
        0 <= k < es.len(),
    ensures
        table_records(es, po, stride, wide, with_flags).subrange(stride * k, stride * k + stride)
            == table_record(es[k], (po + path_start(es, k)) as u64, stride, wide, with_flags),
    decreases k,
{
    let rest = es.skip(1);
    let po2 = po + 2 * es[0].units.len();
    let first = table_record(es[0], po as u64, stride, wide, with_flags);
    lemma_table_record_len(es[0], po as u64, stride, wide, with_flags);
    lemma_table_records_len(rest, po2, stride, wide, with_flags);
    assert(table_records(es, po, stride, wide, with_flags) == first + table_records(rest, po2, stride, wide, with_flags));
    if k == 0 {
        assert(table_records(es, po, stride, wide, with_flags).subrange(0, stride as int) =~= first);
    } else {
        lemma_table_records(rest, po2, stride, wide, with_flags, k - 1);
        assert(rest[k - 1] == es[k]);
        assert(stride * k == stride + stride * (k - 1)) by (nonlinear_arith);
        assert(stride * (k - 1) + stride <= stride * rest.len()) by (nonlinear_arith)
            requires
                k - 1 < rest.len(),
        ;
        assert(table_records(es, po, stride, wide, with_flags).subrange(stride * k, stride * k + stride)
            =~= table_records(rest, po2, stride, wide, with_flags).subrange(stride * (k - 1), stride * (k - 1) + stride));
    }
}

/// What a decode reads from one offset-table record.
proof fn lemma_table_record_reads(blob: Seq<u8>, base: int, e: EntrySource, po: u64, stride: nat, wide: bool, with_flags: bool)
    requires
        layout_ok(stride, wide, with_flags),
        wide || po <= 0xFFFF_FFFF,
        0 <= base,
        base + stride <= blob.len(),
        encodable(e),
        blob.subrange(base, base + stride) == table_record(e, po, stride, wide, with_flags),
    ensures
        spec_read_u16(blob, base) == Some((2 * e.units.len()) as u16),
        record_path_offset(blob, base, wide) == Some(po),
        record_filetime(blob, base, wide) == Some(e.filetime),
        record_executed(blob, base, wide, with_flags) == Some(if with_flags { Some(e.executed) } else { None::<bool> }),
{
    let rec = table_record(e, po, stride, wide, with_flags);
    let len2: int = 2 * e.units.len() as int;
    let t: int = if wide { 16 } else { 8 };
    let f: int = if wide { 24 } else { 16 };
    lemma_table_record_len(e, po, stride, wide, with_flags);
    lemma_window(blob, base, rec, 0, 2);
    assert(rec.subrange(0, 2) =~= le16_bytes(len2 as u16));
    lemma_le16_at(blob, base, len2 as u16);
    if wide {
        lemma_window(blob, base, rec, 8, 16);
        assert(rec.subrange(8, 16) =~= le64_bytes(po));
        lemma_le64_at(blob, base + 8, po);
    } else {
        lemma_window(blob, base, rec, 4, 8);
        assert(rec.subrange(4, 8) =~= le32_bytes(po as u32));
        lemma_le32_at(blob, base + 4, po as u32);
    }
    lemma_window(blob, base, rec, t, t + 8);
    assert(rec.subrange(t, t + 8) =~= le64_bytes(e.filetime));
    lemma_le64_at(blob, base + t, e.filetime);
    if with_flags {
        lemma_window(blob, base, rec, f, f + 4);
        assert(rec.subrange(f, f + 4) =~= le32_bytes(if e.executed { 2u32 } else { 0u32 }));
        lemma_le32_at(blob, base + f, if e.executed { 2u32 } else { 0u32 });
        lemma_exec_bits();
    }
}

proof fn lemma_path_read(blob: Seq<u8>, po: int, u: Seq<u16>)
    requires
        0 <= po,
        po + 2 * u.len() <= blob.len(),
        blob.subrange(po, po + 2 * u.len()) == units_bytes(u),
    ensures
        spec_read_path(blob, po, 2 * u.len() as int, false) == Some(strip_device_prefix(utf16_lossy(u))),
{
    lemma_units_roundtrip(u);
}

/// The offsets at which an encoded table cache holds its `i`-th record and its path.
pub open spec fn table_base(header: Seq<u8>, stride: nat, i: int) -> int {
    header.len() + stride * i
}

pub open spec fn table_path_offset(header: Seq<u8>, es: Seq<EntrySource>, stride: nat, i: int) -> int {
    header.len() + stride * es.len() + path_start(es, i)
}

/// The encodings whose path offsets fit their field: 64-bit records always do (the blob stays
/// far below 2^64 bytes); 32-bit records when the whole cache is below 4 GiB.
pub open spec fn offsets_fit(header: Seq<u8>, es: Seq<EntrySource>, stride: nat, wide: bool, with_flags: bool) -> bool {
    &&& es.len() <= 0xFFFF_FFFF
    &&& header.len() <= 128
    &&& (wide || table_blob(header, es, stride, wide, with_flags).len() <= 0xFFFF_FFFF)
}

/// The facts a decode reads from the `i`-th record of an encoded table cache.
#[verifier::spinoff_prover]
#[verifier::rlimit(40)]
proof fn lemma_table_entry(header: Seq<u8>, es: Seq<EntrySource>, stride: nat, wide: bool, with_flags: bool, i: int)
    requires
        layout_ok(stride, wide, with_flags),
        all_encodable(es),
        offsets_fit(header, es, stride, wide, with_flags),
        0 <= i < es.len(),
    ensures
        ({
            let blob = table_blob(header, es, stride, wide, with_flags);
            let base = table_base(header, stride, i);
            let po = table_path_offset(header, es, stride, i);
            let e = es[i];
            &&& spec_read_u16(blob, base) == Some((2 * e.units.len()) as u16)
            &&& record_path_offset(blob, base, wide) == Some(po as u64)
            &&& po as u64 == po
            &&& record_filetime(blob, base, wide) == Some(e.filetime)
            &&& record_executed(blob, base, wide, with_flags) == Some(if with_flags { Some(e.executed) } else { None::<bool> })
            &&& spec_read_path(blob, po, 2 * e.units.len() as int, false)
                == Some(strip_device_prefix(utf16_lossy(e.units)))
        }),
{
    let blob = table_blob(header, es, stride, wide, with_flags);
    let n = es.len() as int;
    let h = header.len() as int;
    let start = h + stride * n;
    let records = table_records(es, start, stride, wide, with_flags);
    let paths = path_region(es);
    let e = es[i];
    let base = h + stride * i;
    let ps = path_start(es, i);
    let po = start + ps;
    let len2: int = 2 * e.units.len() as int;
    assert(encodable(e));
    lemma_table_records_len(es, start, stride, wide, with_flags);
    lemma_table_records(es, start, stride, wide, with_flags, i);
    lemma_path_region(es, i);
    lemma_path_region_len(es);
    assert(blob == header + records + paths);
    assert(po < 0x1_0000_0000_0000_0000) by (nonlinear_arith)
        requires
            po == h + stride * n + ps,
            0 <= h <= 128,
            stride <= 64,
            0 <= ps <= paths.len(),
            paths.len() <= 0xFFFF * n,
            n <= 0xFFFF_FFFF,
    ;
    assert(stride * i + stride <= stride * n) by (nonlinear_arith)
        requires
            i < n,
    ;
    assert(blob.subrange(base, base + stride) =~= records.subrange(stride * i, stride * i + stride));
    lemma_table_record_reads(blob, base, e, po as u64, stride, wide, with_flags);
    assert(blob.subrange(po, po + len2) =~= paths.subrange(ps, ps + len2));
    lemma_path_read(blob, po, e.units);
}

proof fn lemma_table_step(blob: Seq<u8>, h: int, stride: nat, wide: bool, with_flags: bool, n: nat, i: nat, e: EntrySource, po: int)
    requires
        i < n,
        encodable(e),
        spec_read_u16(blob, h + stride * i) == Some((2 * e.units.len()) as u16),
        record_path_offset(blob, h + stride * i, wide) == Some(po as u64),
        po as u64 == po,
        record_filetime(blob, h + stride * i, wide) == Some(e.filetime),
        record_executed(blob, h + stride * i, wide, with_flags) == Some(if with_flags { Some(e.executed) } else { None::<bool> }),
        spec_read_path(blob, po, 2 * e.units.len() as int, false)
            == Some(strip_device_prefix(utf16_lossy(e.units))),
    ensures
        record_entries(blob, h, stride as int, wide, with_flags, n, i)
            == seq![decoded(e, if with_flags { Some(e.executed) } else { None })]
                + record_entries(blob, h, stride as int, wide, with_flags, n, i + 1),
{
    let base = h + i * (stride as int);
    assert(base == h + stride * i) by (nonlinear_arith)
        requires
            base == h + i * (stride as int),
    ;
    assert(spec_read_u16(blob, base) == Some((2 * e.units.len()) as u16));
    assert(record_path_offset(blob, base, wide) == Some(po as u64));
    assert(record_filetime(blob, base, wide) == Some(e.filetime));
    let x = if with_flags { Some(e.executed) } else { None::<bool> };
    assert(record_executed(blob, base, wide, with_flags) == Some(x));
    assert(spec_read_path(blob, (po as u64) as int, ((2 * e.units.len()) as u16) as int, false)
        == Some(strip_device_prefix(utf16_lossy(e.units))));
}

#[verifier::spinoff_prover]
proof fn lemma_table_walk(header: Seq<u8>, es: Seq<EntrySource>, stride: nat, wide: bool, with_flags: bool, i: nat)
    requires
        layout_ok(stride, wide, with_flags),
        all_encodable(es),
        offsets_fit(header, es, stride, wide, with_flags),
        i <= es.len(),
    ensures
        record_entries(table_blob(header, es, stride, wide, with_flags), header.len() as int, stride as int, wide, with_flags, es.len(), i)
            == decoded_seq(es.skip(i as int), with_flags),
    decreases es.len() - i,
{
    let blob = table_blob(header, es, stride, wide, with_flags);
    if i < es.len() {
        lemma_table_entry(header, es, stride, wide, with_flags, i as int);
        assert(encodable(es[i as int]));
        lemma_table_step(blob, header.len() as int, stride, wide, with_flags, es.len(), i, es[i as int],
            table_path_offset(header, es, stride, i as int));
        lemma_table_walk(header, es, stride, wide, with_flags, i + 1);
        let tail = es.skip(i as int);
        lemma_decoded_seq_cons(tail, with_flags);
        assert(tail.skip(1) =~= es.skip(i + 1 as int));
        assert(tail[0] == es[i as int]);
    } else {
        assert(decoded_seq(es.skip(i as int), with_flags) =~= Seq::<EntryModel>::empty());
    }
}

/// The signature and count of an encoded table cache, and the bytes its detection reads.
#[verifier::spinoff_prover]
proof fn lemma_table_header(header: Seq<u8>, sig: u32, es: Seq<EntrySource>, stride: nat, wide: bool, with_flags: bool)
    requires
        layout_ok(stride, wide, with_flags),
        all_encodable(es),
        offsets_fit(header, es, stride, wide, with_flags),
        header.len() >= 8,
        header.subrange(0, 8) == le32_bytes(sig) + le32_bytes(es.len() as u32),
    ensures
        spec_read_u32(table_blob(header, es, stride, wide, with_flags), 0) == Some(sig),
        header_count(table_blob(header, es, stride, wide, with_flags)) == es.len(),
        table_blob(header, es, stride, wide, with_flags).len() == header.len() + stride * es.len()
            + path_region(es).len(),
{
    let blob = table_blob(header, es, stride, wide, with_flags);
    let n = es.len() as int;
    let start: int = header.len() + stride * n;
    let records = table_records(es, start, stride, wide, with_flags);
    lemma_table_records_len(es, start, stride, wide, with_flags);
    assert(blob =~= header + records + path_region(es));
    assert(blob.subrange(0, 4) =~= header.subrange(0, 8).subrange(0, 4));
    assert(header.subrange(0, 8).subrange(0, 4) =~= le32_bytes(sig));
    lemma_le32_at(blob, 0, sig);
    assert(blob.subrange(4, 8) =~= header.subrange(0, 8).subrange(4, 8));
    assert(header.subrange(0, 8).subrange(4, 8) =~= le32_bytes(es.len() as u32));
    lemma_le32_at(blob, 4, es.len() as u32);
}


proof fn lemma_header_prefix(header: Seq<u8>, sig: u32, n: nat)
    requires
        header == le32_bytes(sig) + le32_bytes(n as u32) || header == le32_bytes(sig) + le32_bytes(n as u32) + zeros(120),
    ensures
        header.len() >= 8,
        header.subrange(0, 8) == le32_bytes(sig) + le32_bytes(n as u32),
{
    assert(header.subrange(0, 8) =~= le32_bytes(sig) + le32_bytes(n as u32));
}

/// A Windows 7 cache: 128-byte header, records of 48 bytes (64-bit) or 32 bytes (32-bit),
/// then the path region.
pub open spec fn win7_blob(es: Seq<EntrySource>, wide: bool) -> Seq<u8> {
    table_blob(win7_header(es.len()), es, if wide { 48 } else { 32 }, wide, true)
}

/// A Windows 2003/Vista cache: 8-byte header, records of 32 bytes (64-bit) or 24 bytes
/// (32-bit), then the path region.
pub open spec fn win2003_blob(es: Seq<EntrySource>, wide: bool) -> Seq<u8> {
    table_blob(win2003_header(es.len()), es, if wide { 32 } else { 24 }, wide, false)
}

/// The 64-bit record's padding where the 32-bit layout would hold its path offset.
#[verifier::spinoff_prover]
proof fn lemma_win7_64_padding(es: Seq<EntrySource>)
    requires
        all_encodable(es),
        es.len() <= 0xFFFF_FFFF,
        es.len() > 0,
    ensures
        spec_read_u32(win7_blob(es, true), 132) == Some(0u32),
{
    let header = win7_header(es.len());
    let blob = win7_blob(es, true);
    let n = es.len() as int;
    let start: int = 128 + 48 * n;
    let records = table_records(es, start, 48, true, true);
    lemma_table_records_len(es, start, 48, true, true);
    lemma_table_records(es, start, 48, true, true, 0);
    let rec = table_record(es[0], (start + path_start(es, 0)) as u64, 48, true, true);
    assert(blob =~= header + records + path_region(es));
    assert(blob.subrange(128, 176) =~= records.subrange(0, 48));
    lemma_window(blob, 128, rec, 4, 8);
    assert(rec.subrange(4, 8) =~= le32_bytes(0));
    lemma_le32_at(blob, 132, 0);
}

/// Decoding a Windows 7 64-bit cache gives back exactly the encoded entries, in order, each
/// with its path, `FILETIME` and execution flag, and the layout is detected as 64-bit.
#[verifier::spinoff_prover]
pub proof fn law_win7_64_decode_returns_encoded(es: Seq<EntrySource>)
    requires
        all_encodable(es),
        es.len() <= 0xFFFF_FFFF,
    ensures
        spec_detect_format(win7_blob(es, true)) == Some(ShimcacheFormat::Win7_64),
        spec_parse(win7_blob(es, true)) == Ok::<Seq<EntryModel>, ShimcacheError>(decoded_seq(es, true)),
{
    let header = win7_header(es.len());
    let blob = win7_blob(es, true);
    let n = es.len() as int;
    lemma_header_prefix(header, SIG_WIN7, es.len());
    lemma_table_header(header, SIG_WIN7, es, 48, true, true);
    lemma_table_walk(header, es, 48, true, true, 0);
    assert(es.skip(0) =~= es);
    if n > 0 {
        lemma_win7_64_padding(es);
    } else {
        assert(path_region(es) =~= Seq::<u8>::empty());
    }
    assert(spec_win7_bitness(blob) == ShimcacheFormat::Win7_64);
}

/// Decoding a Windows 7 32-bit cache gives back exactly the encoded entries, in order, each
/// with its path, `FILETIME` and execution flag, and the layout is detected as 32-bit. This
/// holds for caches below 4 GiB with at least one non-empty path whose first entry's
/// `FILETIME` does not itself look like a 64-bit path offset (the bytes the 64-bit layout
/// would read as one).
#[verifier::spinoff_prover]
pub proof fn law_win7_32_decode_returns_encoded(es: Seq<EntrySource>)
    requires
        all_encodable(es),
        es.len() <= 0xFFFF_FFFF,
        win7_blob(es, false).len() <= 0xFFFF_FFFF,
        path_region(es).len() > 0,
        !plausible_path_offset(win7_blob(es, false), Some(es[0].filetime), 128 + 48 * es.len() as int),
    ensures
        spec_detect_format(win7_blob(es, false)) == Some(ShimcacheFormat::Win7_32),
        spec_parse(win7_blob(es, false)) == Ok::<Seq<EntryModel>, ShimcacheError>(decoded_seq(es, true)),
{
    let header = win7_header(es.len());
    let blob = win7_blob(es, false);
    let n = es.len() as int;
    assert(n > 0) by {
        if n == 0 {
            assert(path_region(es) =~= Seq::<u8>::empty());
        }
    }
    lemma_header_prefix(header, SIG_WIN7, es.len());
    lemma_table_header(header, SIG_WIN7, es, 32, false, true);
    lemma_table_walk(header, es, 32, false, true, 0);
    lemma_table_entry(header, es, 32, false, true, 0);
    assert(es.skip(0) =~= es);
    assert((128 + 32 * n) % 2 == 0) by (nonlinear_arith);
    assert(spec_win7_bitness(blob) == ShimcacheFormat::Win7_32);
}

/// Decoding a Windows 2003/Vista 64-bit cache with at least one non-empty path gives back
/// exactly the encoded entries, in order, with no execution flag, and the layout is detected
/// as 64-bit.
#[verifier::spinoff_prover]
pub proof fn law_2003_64_decode_returns_encoded(es: Seq<EntrySource>)
    requires
        all_encodable(es),
        es.len() <= 0xFFFF_FFFF,
        path_region(es).len() > 0,
    ensures
        spec_detect_format(win2003_blob(es, true)) == Some(ShimcacheFormat::Win2003_64),
        spec_parse(win2003_blob(es, true)) == Ok::<Seq<EntryModel>, ShimcacheError>(decoded_seq(es, false)),
{
    let header = win2003_header(es.len());
    let blob = win2003_blob(es, true);
    let n = es.len() as int;
    assert(n > 0) by {
        if n == 0 {
            assert(path_region(es) =~= Seq::<u8>::empty());
        }
    }
    lemma_header_prefix(header, SIG_WIN2003_VISTA, es.len());
    lemma_table_header(header, SIG_WIN2003_VISTA, es, 32, true, false);
    lemma_table_walk(header, es, 32, true, false, 0);
    lemma_table_entry(header, es, 32, true, false, 0);
    assert(es.skip(0) =~= es);
    assert((8 + 32 * n) % 2 == 0) by (nonlinear_arith);
    assert(spec_2003_bitness(blob) == ShimcacheFormat::Win2003_64);
}

/// Decoding a Windows 2003/Vista 32-bit cache below 4 GiB gives back exactly the encoded
/// entries, in order, with no execution flag, and the layout is detected as 32-bit, provided
/// the first entry's `FILETIME` does not itself look like a 64-bit path offset.
#[verifier::spinoff_prover]
pub proof fn law_2003_32_decode_returns_encoded(es: Seq<EntrySource>)
    requires
        all_encodable(es),
        es.len() <= 0xFFFF_FFFF,
        win2003_blob(es, false).len() <= 0xFFFF_FFFF,
        es.len() > 0 ==> !plausible_path_offset(win2003_blob(es, false), Some(es[0].filetime), 8 + 32 * es.len() as int),
    ensures
        spec_detect_format(win2003_blob(es, false)) == Some(ShimcacheFormat::Win2003_32),
        spec_parse(win2003_blob(es, false)) == Ok::<Seq<EntryModel>, ShimcacheError>(decoded_seq(es, false)),
{
    let header = win2003_header(es.len());
    let blob = win2003_blob(es, false);
    let n = es.len() as int;
    lemma_header_prefix(header, SIG_WIN2003_VISTA, es.len());
    lemma_table_header(header, SIG_WIN2003_VISTA, es, 24, false, false);
    lemma_table_walk(header, es, 24, false, false, 0);
    if n > 0 {
        lemma_table_entry(header, es, 24, false, false, 0);
    } else {
        assert(path_region(es) =~= Seq::<u8>::empty());
    }
    assert(es.skip(0) =~= es);
    assert(spec_2003_bitness(blob) == ShimcacheFormat::Win2003_32);
}


/// An entry a Windows XP cache can hold: a path of at most 264 non-NUL units that does not
/// decode to the empty string once its device prefix is removed (XP skips empty paths).
pub open spec fn xp_encodable(e: EntrySource) -> bool {
    &&& 2 * e.units.len() <= 528
    &&& forall|k: int| 0 <= k < e.units.len() ==> #[trigger] e.units[k] != 0
    &&& strip_device_prefix(utf16_lossy(e.units)).len() > 0
}

/// A Windows XP entry: the path NUL-padded to 528 bytes, the `FILETIME`, and 16 more bytes.
pub open spec fn xp_record(e: EntrySource) -> Seq<u8> {
    units_bytes(e.units) + zeros((528 - 2 * e.units.len()) as nat) + le64_bytes(e.filetime) + zeros(16)
}

pub open spec fn xp_records(es: Seq<EntrySource>) -> Seq<u8>
    decreases es.len(),
{
    if es.len() == 0 {
        Seq::empty()
    } else {
        xp_record(es[0]) + xp_records(es.skip(1))
    }
}

/// A Windows XP cache: the 400-byte header (signature, entry count) then the 552-byte entries.
pub open spec fn xp_blob(es: Seq<EntrySource>) -> Seq<u8> {
    le32_bytes(SIG_WINXP) + le32_bytes(es.len() as u32) + zeros(392) + xp_records(es)
}

proof fn lemma_xp_records(es: Seq<EntrySource>, k: int)
    requires
        forall|j: int| 0 <= j < es.len() ==> xp_encodable(#[trigger] es[j]),
        0 <= k < es.len(),
    ensures
        xp_records(es).len() == 552 * es.len(),
        xp_records(es).subrange(552 * k, 552 * k + 552) == xp_record(es[k]),
    decreases k,
{
    lemma_xp_records_len(es);
    let rest = es.skip(1);
    assert(xp_encodable(es[0]));
    assert(xp_record(es[0]).len() == 552);
    assert(xp_records(es) == xp_record(es[0]) + xp_records(rest));
    if k == 0 {
        assert(xp_records(es).subrange(0, 552) =~= xp_record(es[0]));
    } else {
        assert forall|j: int| 0 <= j < rest.len() implies xp_encodable(#[trigger] rest[j]) by {
            assert(rest[j] == es[j + 1]);
        }
        lemma_xp_records(rest, k - 1);
        lemma_xp_records_len(rest);
        assert(rest[k - 1] == es[k]);
        assert(xp_records(es).subrange(552 * k, 552 * k + 552)
            =~= xp_records(rest).subrange(552 * (k - 1), 552 * (k - 1) + 552));
    }
}

proof fn lemma_xp_records_len(es: Seq<EntrySource>)
    requires
        forall|j: int| 0 <= j < es.len() ==> xp_encodable(#[trigger] es[j]),
    ensures
        xp_records(es).len() == 552 * es.len(),
    decreases es.len(),
{
    if es.len() > 0 {
        let rest = es.skip(1);
        assert(xp_encodable(es[0]));
        assert forall|j: int| 0 <= j < rest.len() implies xp_encodable(#[trigger] rest[j]) by {
            assert(rest[j] == es[j + 1]);
        }
        lemma_xp_records_len(rest);
    }
}

proof fn lemma_until_nul_prefix(u: Seq<u16>, v: Seq<u16>)
    requires
        forall|k: int| 0 <= k < u.len() ==> #[trigger] u[k] != 0,
        v.len() == 0 || v[0] == 0,
    ensures
        until_nul(u + v) == u,
    decreases u.len(),
{
    if u.len() == 0 {
        assert(u + v =~= v);
    } else {
        let t = u.skip(1);
        assert forall|k: int| 0 <= k < t.len() implies #[trigger] t[k] != 0 by {
            assert(t[k] == u[k + 1]);
        }
        lemma_until_nul_prefix(t, v);
        assert((u + v)[0] == u[0]);
        assert((u + v).skip(1) =~= t + v);
        assert(u =~= seq![u[0]] + t);
    }
}

/// The path field of an XP entry decodes to the entry's path.
proof fn lemma_xp_path(e: EntrySource)
    requires
        xp_encodable(e),
    ensures
        until_nul(utf16_units(xp_record(e).subrange(0, 528))) == e.units,
{
    let l = e.units.len() as int;
    let field = xp_record(e).subrange(0, 528);
    let pad = Seq::new((264 - l) as nat, |k: int| 0u16);
    assert(field =~= units_bytes(e.units) + zeros((528 - 2 * l) as nat));
    assert(utf16_units(field) =~= e.units + pad) by {
        assert forall|k: int| 0 <= k < 264 implies #[trigger] utf16_units(field)[k] == (e.units + pad)[k] by {
            if k < l {
                assert((2 * k) % 2 == 0 && (2 * k) / 2 == k);
                assert((2 * k + 1) % 2 == 1 && (2 * k + 1) / 2 == k);
                lemma_le16(e.units[k]);
            }
        }
    }
    lemma_until_nul_prefix(e.units, pad);
}

#[verifier::spinoff_prover]
#[verifier::rlimit(40)]
proof fn lemma_xp_step(es: Seq<EntrySource>, i: nat)
    requires
        forall|j: int| 0 <= j < es.len() ==> xp_encodable(#[trigger] es[j]),
        es.len() <= 0xFFFF_FFFF,
        i < es.len(),
    ensures
        xp_entries(xp_blob(es), es.len(), i) == seq![decoded(es[i as int], None)] + xp_entries(xp_blob(es), es.len(), i + 1),
{
    let blob = xp_blob(es);
    let header = le32_bytes(SIG_WINXP) + le32_bytes(es.len() as u32) + zeros(392);
    let records = xp_records(es);
    let e = es[i as int];
    let base: int = 400 + i as int * 552;
    assert(xp_encodable(e));
    lemma_xp_records(es, i as int);
    assert(header.len() == 400);
    assert(blob == header + records);
    assert(552 * i + 552 <= 552 * es.len()) by (nonlinear_arith)
        requires
            i < es.len(),
    ;
    assert(blob.subrange(base, base + 552) =~= records.subrange(552 * i as int, 552 * i as int + 552));
    let rec = xp_record(e);
    lemma_window(blob, base, rec, 0, 528);
    lemma_xp_path(e);
    lemma_window(blob, base, rec, 528, 536);
    assert(rec.subrange(528, 536) =~= le64_bytes(e.filetime));
    lemma_le64_at(blob, base + 528, e.filetime);
}

proof fn lemma_xp_walk(es: Seq<EntrySource>, i: nat)
    requires
        forall|j: int| 0 <= j < es.len() ==> xp_encodable(#[trigger] es[j]),
        es.len() <= 0xFFFF_FFFF,
        i <= es.len(),
    ensures
        xp_entries(xp_blob(es), es.len(), i) == decoded_seq(es.skip(i as int), false),
    decreases es.len() - i,
{
    if i < es.len() {
        lemma_xp_step(es, i);
        lemma_xp_walk(es, i + 1);
        let tail = es.skip(i as int);
        lemma_decoded_seq_cons(tail, false);
        assert(tail.skip(1) =~= es.skip(i + 1 as int));
        assert(tail[0] == es[i as int]);
    } else {
        assert(decoded_seq(es.skip(i as int), false) =~= Seq::<EntryModel>::empty());
    }
}

/// Decoding a Windows XP cache gives back exactly the encoded entries, in order, with no
/// execution flag, for paths that fit the 528-byte field without NUL units and do not decode
/// to the empty string (an empty path is skipped).
#[verifier::spinoff_prover]
pub proof fn law_xp_decode_returns_encoded(es: Seq<EntrySource>)
    requires
        forall|j: int| 0 <= j < es.len() ==> xp_encodable(#[trigger] es[j]),
        es.len() <= 0xFFFF_FFFF,
    ensures
        spec_detect_format(xp_blob(es)) == Some(ShimcacheFormat::WinXp),
        spec_parse(xp_blob(es)) == Ok::<Seq<EntryModel>, ShimcacheError>(decoded_seq(es, false)),
{
    let blob = xp_blob(es);
    let header = le32_bytes(SIG_WINXP) + le32_bytes(es.len() as u32) + zeros(392);
    assert(blob == header + xp_records(es));
    assert(blob.subrange(0, 4) =~= le32_bytes(SIG_WINXP));
    lemma_le32_at(blob, 0, SIG_WINXP);
    assert(blob.subrange(4, 8) =~= le32_bytes(es.len() as u32));
    lemma_le32_at(blob, 4, es.len() as u32);
    lemma_xp_walk(es, 0);
    assert(es.skip(0) =~= es);
}

} // verus!
