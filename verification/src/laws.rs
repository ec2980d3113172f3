//! Properties of the decoder that hold across its functions and for every input.

use vstd::prelude::*;
use crate::bytes::spec_read_u32;
use crate::detect::{header_count, spec_detect_format};
use crate::model::{EntryModel, ShimcacheError, ShimcacheFormat};
use crate::audit::{ascii_upper, entry_anomalies, in_system_dir, system32_dir, syswow64_dir, is_suspicious_exec_path, is_system32_binary_name, spec_audit, uppercase, AnomalyModel};
use crate::text::{base_name, seq_contains};
use crate::parse::{record_entries, spec_parse, win10_entries, win8_entries, xp_entries, remaining};

verus! {

/// Whether every entry carries an execution state exactly when `known`.
pub open spec fn execution_known_is(es: Seq<EntryModel>, known: bool) -> bool {
    forall|k: int| 0 <= k < es.len() ==> (#[trigger] es[k].executed is Some) == known
}

/// The layouts that record an execution flag: Windows 7 and Windows 8.0/8.1.
pub open spec fn records_execution(f: ShimcacheFormat) -> bool {
    ||| f == ShimcacheFormat::Win7_32
    ||| f == ShimcacheFormat::Win7_64
    ||| f == ShimcacheFormat::Win8_0
    ||| f == ShimcacheFormat::Win8_1
}

proof fn lemma_prepend_known(e: EntryModel, es: Seq<EntryModel>, known: bool)
    requires
        (e.executed is Some) == known,
        execution_known_is(es, known),
    ensures
        execution_known_is(seq![e] + es, known),
{
    assert forall|k: int| 0 <= k < (seq![e] + es).len() implies
        (#[trigger] (seq![e] + es)[k].executed is Some) == known by {
        if k > 0 {
            assert((seq![e] + es)[k] == es[k - 1]);
        }
    }
}

proof fn lemma_xp_known(blob: Seq<u8>, n: nat, i: nat)
    ensures
        execution_known_is(xp_entries(blob, n, i), false),
    decreases n - i,
{
    if i < n {
        lemma_xp_known(blob, n, i + 1);
        let es = xp_entries(blob, n, i);
        let rest = xp_entries(blob, n, i + 1);
        if es.len() > 0 && es != rest {
            lemma_prepend_known(es[0], rest, false);
            assert(es =~= seq![es[0]] + rest);
        }
    }
}

proof fn lemma_records_known(
    blob: Seq<u8>,
    header: int,
    stride: int,
    wide: bool,
    with_flags: bool,
    n: nat,
    i: nat,
)
    ensures
        execution_known_is(record_entries(blob, header, stride, wide, with_flags, n, i), with_flags),
    decreases n - i,
{
    if i < n {
        lemma_records_known(blob, header, stride, wide, with_flags, n, i + 1);
        let es = record_entries(blob, header, stride, wide, with_flags, n, i);
        let rest = record_entries(blob, header, stride, wide, with_flags, n, i + 1);
        if es.len() > 0 && es != rest {
            lemma_prepend_known(es[0], rest, with_flags);
            assert(es =~= seq![es[0]] + rest);
        }
    }
}

proof fn lemma_win8_known(blob: Seq<u8>, off: int, v8_1: bool)
    ensures
        execution_known_is(win8_entries(blob, off, v8_1), true),
    decreases remaining(blob.len(), off),
{
    let es = win8_entries(blob, off, v8_1);
    if es.len() > 0 {
        let data_size = spec_read_u32(blob, off + 8)->Some_0;
        let next = off + 12 + data_size;
        lemma_win8_known(blob, next, v8_1);
        lemma_prepend_known(es[0], win8_entries(blob, next, v8_1), true);
        assert(es =~= seq![es[0]] + win8_entries(blob, next, v8_1));
    }
}

proof fn lemma_win10_known(blob: Seq<u8>, off: int)
    ensures
        execution_known_is(win10_entries(blob, off), false),
    decreases remaining(blob.len(), off),
{
    let es = win10_entries(blob, off);
    if es.len() > 0 {
        let data_size = spec_read_u32(blob, off + 8)->Some_0;
        let next = off + 12 + data_size;
        lemma_win10_known(blob, next);
        lemma_prepend_known(es[0], win10_entries(blob, next), false);
        assert(es =~= seq![es[0]] + win10_entries(blob, next));
    }
}

/// A blob decodes exactly when its format is detected: `parse` fails precisely on the blobs
/// for which `detect_format` returns `None`.
pub proof fn law_decodes_iff_detected(blob: Seq<u8>)
    ensures
        spec_parse(blob) is Ok <==> spec_detect_format(blob) is Some,
{
}

/// The two errors say why a blob was refused: `TooShort` exactly when the blob cannot hold
/// the 4-byte signature (carrying its length), `UnknownSignature` otherwise, carrying the
/// little-endian signature found at offset 0.
pub proof fn law_errors_name_the_cause(blob: Seq<u8>)
    ensures
        spec_parse(blob) matches Err(e) ==> match e {
            ShimcacheError::TooShort { len } => blob.len() < 4 && len == blob.len(),
            ShimcacheError::UnknownSignature { signature } => blob.len() >= 4
                && spec_read_u32(blob, 0) == Some(signature),
        },
        blob.len() < 4 ==> spec_parse(blob) == Err::<Seq<EntryModel>, ShimcacheError>(
            ShimcacheError::TooShort { len: blob.len() as usize },
        ),
{
}

/// The execution flag is tri-state by format: every decoded entry of a Windows 7 or 8 cache
/// carries `Some(flag)`, every entry of an XP, 2003/Vista or Windows 10 cache carries `None`.
pub proof fn law_execution_state_follows_format(blob: Seq<u8>)
    ensures
        spec_parse(blob) matches Ok(es) ==> {
            &&& spec_detect_format(blob) is Some
            &&& execution_known_is(es, records_execution(spec_detect_format(blob)->Some_0))
        },
{
    let n = header_count(blob);
    lemma_xp_known(blob, n, 0);
    lemma_records_known(blob, 8, 24, false, false, n, 0);
    lemma_records_known(blob, 8, 32, true, false, n, 0);
    lemma_records_known(blob, 128, 32, false, true, n, 0);
    lemma_records_known(blob, 128, 48, true, true, n, 0);
    lemma_win8_known(blob, 128, true);
    lemma_win8_known(blob, 128, false);
    lemma_win10_known(blob, 0x30);
    lemma_win10_known(blob, 0x34);
}


/// Whether `f` is one of the findings of some entry of `es`.
pub open spec fn raised_by_some_entry(es: Seq<EntryModel>, f: AnomalyModel) -> bool {
    exists|j: int| 0 <= j < es.len() && #[trigger] entry_anomalies(es[j]).contains(f)
}

/// Every finding of an audit is one of the findings of some audited entry.
pub proof fn law_findings_come_from_entries(es: Seq<EntryModel>)
    ensures
        forall|i: int| 0 <= i < spec_audit(es).len() ==> raised_by_some_entry(es, #[trigger] spec_audit(es)[i]),
    decreases es.len(),
{
    if es.len() > 0 {
        let init = es.drop_last();
        law_findings_come_from_entries(init);
        let a = spec_audit(es);
        assert forall|i: int| 0 <= i < a.len() implies raised_by_some_entry(es, #[trigger] a[i]) by {
            let n = spec_audit(init).len();
            if i < n {
                assert(a[i] == spec_audit(init)[i]);
                assert(raised_by_some_entry(init, spec_audit(init)[i]));
                let j = choose|j: int| 0 <= j < init.len() && #[trigger] entry_anomalies(init[j]).contains(spec_audit(init)[i]);
                assert(es[j] == init[j]);
                assert(entry_anomalies(es[j]).contains(a[i]));
            } else {
                let last = entry_anomalies(es.last());
                assert(a[i] == last[i - n]);
                assert(last.contains(a[i]));
                assert(es[es.len() - 1] == es.last());
                assert(entry_anomalies(es[es.len() - 1]).contains(a[i]));
            }
        }
    }
}

/// Auditing is entry by entry: the audit of two runs of entries is the audit of the first
/// followed by the audit of the second.
pub proof fn law_audit_concatenates(a: Seq<EntryModel>, b: Seq<EntryModel>)
    ensures
        spec_audit(a + b) == spec_audit(a) + spec_audit(b),
    decreases b.len(),
{
    if b.len() == 0 {
        assert(a + b =~= a);
        assert(spec_audit(a) + spec_audit(b) =~= spec_audit(a));
    } else {
        law_audit_concatenates(a, b.drop_last());
        assert((a + b).drop_last() =~= a + b.drop_last());
        assert((a + b).last() == b.last());
        assert(spec_audit(a) + spec_audit(b) =~= spec_audit(a) + spec_audit(b.drop_last())
            + entry_anomalies(b.last()));
    }
}

/// Every finding of every audited entry is in the audit.
proof fn lemma_entry_findings_in_audit(es: Seq<EntryModel>, j: int, f: AnomalyModel)
    requires
        0 <= j < es.len(),
        entry_anomalies(es[j]).contains(f),
    ensures
        spec_audit(es).contains(f),
    decreases es.len(),
{
    let init = es.drop_last();
    let a = spec_audit(es);
    let n = spec_audit(init).len();
    assert(a == spec_audit(init) + entry_anomalies(es.last()));
    if j == es.len() - 1 {
        let fs = entry_anomalies(es.last());
        let k = choose|k: int| 0 <= k < fs.len() && fs[k] == f;
        assert(a[n + k] == f);
    } else {
        assert(init[j] == es[j]);
        lemma_entry_findings_in_audit(init, j, f);
        let k = choose|k: int| 0 <= k < spec_audit(init).len() && spec_audit(init)[k] == f;
        assert(a[k] == f);
    }
}

/// The masquerading finding is complete: every audited entry whose base name is a System32
/// binary and whose upper-cased path contains neither `\SYSTEM32\` nor `\SYSWOW64\` is reported
/// as relocated, under its base name upper-cased and its recorded path.
pub proof fn law_relocation_reported_outside_system_dirs(es: Seq<EntryModel>, j: int)
    requires
        0 <= j < es.len(),
        is_system32_binary_name(base_name(es[j].path)),
        !seq_contains(uppercase(es[j].path), seq!['\\', 'S', 'Y', 'S', 'T', 'E', 'M', '3', '2', '\\']),
        !seq_contains(uppercase(es[j].path), seq!['\\', 'S', 'Y', 'S', 'W', 'O', 'W', '6', '4', '\\']),
    ensures
        spec_audit(es).contains(AnomalyModel::SystemBinaryRelocated {
            name: uppercase(base_name(es[j].path)),
            path: es[j].path,
        }),
{
    let f = AnomalyModel::SystemBinaryRelocated { name: uppercase(base_name(es[j].path)), path: es[j].path };
    assert(system32_dir() =~= seq!['\\', 'S', 'Y', 'S', 'T', 'E', 'M', '3', '2', '\\']);
    assert(syswow64_dir() =~= seq!['\\', 'S', 'Y', 'S', 'W', 'O', 'W', '6', '4', '\\']);
    assert(!in_system_dir(uppercase(es[j].path)));
    assert(entry_anomalies(es[j])[0] == f);
    lemma_entry_findings_in_audit(es, j, f);
}

/// The staging-directory finding is complete: every audited entry whose path is a suspicious
/// execution path is reported, with its base name, its path and its execution flag.
pub proof fn law_staging_path_reported(es: Seq<EntryModel>, j: int)
    requires
        0 <= j < es.len(),
        is_suspicious_exec_path(es[j].path),
    ensures
        spec_audit(es).contains(AnomalyModel::SuspiciousPath {
            executable: base_name(es[j].path),
            path: es[j].path,
            executed: es[j].executed,
        }),
{
    let f = AnomalyModel::SuspiciousPath { executable: base_name(es[j].path), path: es[j].path, executed: es[j].executed };
    let fs = entry_anomalies(es[j]);
    assert(fs[fs.len() - 1] == f);
    lemma_entry_findings_in_audit(es, j, f);
}

/// The masquerading finding is high-precision: it only names an entry whose base name is a
/// System32 binary and whose upper-cased path is under neither `\SYSTEM32\` nor `\SYSWOW64\`,
/// and it reports that base name upper-cased together with the recorded path.
pub proof fn law_relocation_only_outside_system_dirs(es: Seq<EntryModel>)
    ensures
        forall|i: int| 0 <= i < spec_audit(es).len() ==> (#[trigger] spec_audit(es)[i] matches
            AnomalyModel::SystemBinaryRelocated { name, path } ==> exists|j: int| {
                &&& 0 <= j < es.len()
                &&& #[trigger] es[j].path == path
                &&& is_system32_binary_name(base_name(path))
                &&& !in_system_dir(uppercase(path))
                &&& name == uppercase(base_name(path))
            }),
{
    law_findings_come_from_entries(es);
    assert forall|i: int| 0 <= i < spec_audit(es).len() implies (#[trigger] spec_audit(es)[i] matches
        AnomalyModel::SystemBinaryRelocated { name, path } ==> exists|j: int| {
            &&& 0 <= j < es.len()
            &&& #[trigger] es[j].path == path
            &&& is_system32_binary_name(base_name(path))
            &&& !in_system_dir(uppercase(path))
            &&& name == uppercase(base_name(path))
        }) by {
        assert(raised_by_some_entry(es, spec_audit(es)[i]));
        let j = choose|j: int| 0 <= j < es.len() && #[trigger] entry_anomalies(es[j]).contains(spec_audit(es)[i]);
        let fs = entry_anomalies(es[j]);
        let k = choose|k: int| 0 <= k < fs.len() && fs[k] == spec_audit(es)[i];
        assert(es[j].path == es[j].path);
    }
}

/// A path that contains `\System32\` or `\SysWOW64\` in any mixture of ASCII letter case
/// upper-cases to one under `System32`/`SysWOW64`; with the quietness that [`crate::audit`]
/// states of its findings, such a path is never reported as a relocated system binary.
pub proof fn law_system_dir_in_any_case(path: Seq<char>, at: int)
    requires
        0 <= at <= path.len() - 10,
        ascii_upper(path.subrange(at, at + 10)) == system32_dir()
            || ascii_upper(path.subrange(at, at + 10)) == syswow64_dir(),
    ensures
        in_system_dir(ascii_upper(path)),
{
    assert(ascii_upper(path).subrange(at, at + 10) =~= ascii_upper(path.subrange(at, at + 10)));
}

/// A staging-directory finding names an audited entry whose path is a suspicious execution
/// path, reports its base name, and carries that entry's execution flag unchanged.
pub proof fn law_suspicious_path_carries_execution_flag(es: Seq<EntryModel>)
    ensures
        forall|i: int| 0 <= i < spec_audit(es).len() ==> (#[trigger] spec_audit(es)[i] matches
            AnomalyModel::SuspiciousPath { executable, path, executed } ==> exists|j: int| {
                &&& 0 <= j < es.len()
                &&& #[trigger] es[j].path == path
                &&& es[j].executed == executed
                &&& is_suspicious_exec_path(path)
                &&& executable == base_name(path)
            }),
{
    law_findings_come_from_entries(es);
    assert forall|i: int| 0 <= i < spec_audit(es).len() implies (#[trigger] spec_audit(es)[i] matches
        AnomalyModel::SuspiciousPath { executable, path, executed } ==> exists|j: int| {
            &&& 0 <= j < es.len()
            &&& #[trigger] es[j].path == path
            &&& es[j].executed == executed
            &&& is_suspicious_exec_path(path)
            &&& executable == base_name(path)
        }) by {
        assert(raised_by_some_entry(es, spec_audit(es)[i]));
        let j = choose|j: int| 0 <= j < es.len() && #[trigger] entry_anomalies(es[j]).contains(spec_audit(es)[i]);
        let fs = entry_anomalies(es[j]);
        let k = choose|k: int| 0 <= k < fs.len() && fs[k] == spec_audit(es)[i];
        assert(es[j].path == es[j].path);
    }
}


proof fn lemma_xp_count(blob: Seq<u8>, n: nat, i: nat)
    requires
        i <= n,
    ensures
        xp_entries(blob, n, i).len() <= n - i,
    decreases n - i,
{
    if i < n {
        lemma_xp_count(blob, n, i + 1);
    }
}

proof fn lemma_records_count(
    blob: Seq<u8>,
    header: int,
    stride: int,
    wide: bool,
    with_flags: bool,
    n: nat,
    i: nat,
)
    requires
        i <= n,
    ensures
        record_entries(blob, header, stride, wide, with_flags, n, i).len() <= n - i,
    decreases n - i,
{
    if i < n {
        lemma_records_count(blob, header, stride, wide, with_flags, n, i + 1);
    }
}

/// For the fixed-record layouts (XP, 2003/Vista, Windows 7) the decode never yields more
/// entries than the header's `number_of_cached_entries`.
pub proof fn law_fixed_record_count_bounded_by_header(blob: Seq<u8>)
    ensures
        spec_parse(blob) matches Ok(es) ==> (spec_detect_format(blob) matches Some(f) ==> (
            f != ShimcacheFormat::Win8_0 && f != ShimcacheFormat::Win8_1 && f != ShimcacheFormat::Win10
                ==> es.len() <= header_count(blob))),
{
    let n = header_count(blob);
    lemma_xp_count(blob, n, 0);
    lemma_records_count(blob, 8, 24, false, false, n, 0);
    lemma_records_count(blob, 8, 32, true, false, n, 0);
    lemma_records_count(blob, 128, 32, false, true, n, 0);
    lemma_records_count(blob, 128, 48, true, true, n, 0);
}


} // verus!
