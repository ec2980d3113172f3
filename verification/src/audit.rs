//! Graded anomalies over decoded entries: a Windows system-binary name recorded outside
//! `System32`/`SysWOW64` (masquerading) and an entry in a directory commonly used to stage
//! malware. The system-binary baseline and the staging-directory list are `forensicnomicon`'s
//! shared DFIR knowledge; this module holds the policy of what to flag.

use vstd::prelude::*;
use crate::model::{entries_model, EntryModel, ShimcacheEntry};
use crate::text::{base_name, base_name_of, chars_of, contains_chars, seq_contains};

verus! {

/// What `str::to_uppercase` returns for a string (Unicode full uppercase mapping).
pub uninterp spec fn uppercase(s: Seq<char>) -> Seq<char>;

/// Whether every character is ASCII.
pub open spec fn is_ascii_chars(s: Seq<char>) -> bool {
    forall|i: int| 0 <= i < s.len() ==> (#[trigger] s[i] as u32) < 128
}

/// ASCII upper-casing of one character: `a`..=`z` become `A`..=`Z`, all else is kept.
pub open spec fn ascii_upper_char(c: char) -> char {
    if 'a' <= c && c <= 'z' {
        ((c as u32) - 32) as char
    } else {
        c
    }
}

/// ASCII lower-casing of one character: `A`..=`Z` become `a`..=`z`, all else is kept.
pub open spec fn ascii_lower_char(c: char) -> char {
    if 'A' <= c && c <= 'Z' {
        ((c as u32) + 32) as char
    } else {
        c
    }
}

/// A string upper-cased character by character over ASCII letters.
pub open spec fn ascii_upper(s: Seq<char>) -> Seq<char> {
    s.map_values(|c: char| ascii_upper_char(c))
}

/// A string lower-cased character by character over ASCII letters (`str::to_ascii_lowercase`).
pub open spec fn ascii_lower(s: Seq<char>) -> Seq<char> {
    s.map_values(|c: char| ascii_lower_char(c))
}

/// `forensicnomicon::processes::WINDOWS_SYSTEM32_BINARIES`: the binaries whose canonical home
/// is `System32` (or `SysWOW64`).
pub open spec fn system32_binary_names() -> Seq<Seq<char>> {
    seq![
        seq!['s', 'v', 'c', 'h', 'o', 's', 't', '.', 'e', 'x', 'e'],
        seq!['l', 's', 'a', 's', 's', '.', 'e', 'x', 'e'],
        seq!['c', 's', 'r', 's', 's', '.', 'e', 'x', 'e'],
        seq!['s', 'p', 'o', 'o', 'l', 's', 'v', '.', 'e', 'x', 'e'],
        seq!['d', 'l', 'l', 'h', 'o', 's', 't', '.', 'e', 'x', 'e'],
        seq!['c', 'o', 'n', 'h', 'o', 's', 't', '.', 'e', 'x', 'e'],
        seq!['w', 'e', 'r', 'm', 'g', 'r', '.', 'e', 'x', 'e'],
        seq!['s', 'e', 'r', 'v', 'i', 'c', 'e', 's', '.', 'e', 'x', 'e'],
        seq!['w', 'i', 'n', 'l', 'o', 'g', 'o', 'n', '.', 'e', 'x', 'e'],
        seq!['w', 'i', 'n', 'i', 'n', 'i', 't', '.', 'e', 'x', 'e'],
        seq!['s', 'm', 's', 's', '.', 'e', 'x', 'e'],
        seq!['t', 'a', 's', 'k', 'h', 'o', 's', 't', '.', 'e', 'x', 'e'],
        seq!['t', 'a', 's', 'k', 'h', 'o', 's', 't', 'w', '.', 'e', 'x', 'e'],
        seq!['l', 's', 'a', 'i', 's', 'o', '.', 'e', 'x', 'e'],
        seq!['r', 'u', 'n', 'd', 'l', 'l', '3', '2', '.', 'e', 'x', 'e'],
    ]
}

/// `forensicnomicon::heuristics::paths::SUSPICIOUS_EXEC_PREFIXES`: the path fragments of the
/// directories commonly used to stage malware.
pub open spec fn suspicious_exec_fragments() -> Seq<Seq<char>> {
    seq![
        seq!['\\', 'T', 'e', 'm', 'p', '\\'],
        seq!['\\', 't', 'm', 'p', '\\'],
        seq!['\\', 'A', 'p', 'p', 'D', 'a', 't', 'a', '\\', 'L', 'o', 'c', 'a', 'l', '\\', 'T', 'e', 'm', 'p', '\\'],
        seq!['\\', 'U', 's', 'e', 'r', 's', '\\', 'P', 'u', 'b', 'l', 'i', 'c', '\\'],
        seq!['\\', 'P', 'r', 'o', 'g', 'r', 'a', 'm', 'D', 'a', 't', 'a', '\\'],
        seq!['\\', 'D', 'o', 'w', 'n', 'l', 'o', 'a', 'd', 's', '\\'],
        seq!['\\', '$', 'R', 'e', 'c', 'y', 'c', 'l', 'e', '.', 'B', 'i', 'n', '\\'],
        seq!['\\', 'P', 'e', 'r', 'f', 'L', 'o', 'g', 's', '\\'],
        seq!['/', 't', 'm', 'p', '/'],
        seq!['/', 'd', 'e', 'v', '/', 's', 'h', 'm', '/'],
        seq!['/', 'r', 'u', 'n', '/', 's', 'h', 'm', '/'],
        seq!['/', 'v', 'a', 'r', '/', 't', 'm', 'p', '/'],
    ]
}

/// Whether a file name is one of the `System32` binaries, compared after ASCII lower-casing
/// of both sides.
pub open spec fn is_system32_binary_name(name: Seq<char>) -> bool {
    exists|k: int|
        0 <= k < system32_binary_names().len()
            && #[trigger] ascii_lower(system32_binary_names()[k]) == ascii_lower(name)
}

/// Whether a path contains one of the staging-directory fragments, both sides ASCII
/// lower-cased first.
pub open spec fn is_suspicious_exec_path(path: Seq<char>) -> bool {
    exists|k: int|
        0 <= k < suspicious_exec_fragments().len()
            && seq_contains(ascii_lower(path), #[trigger] ascii_lower(suspicious_exec_fragments()[k]))
}

/// `str::to_uppercase` from std: the string with every character mapped to its Unicode
/// uppercase form. The contract names the result, and states it outright for ASCII text,
/// where each letter `a`..=`z` becomes `A`..=`Z` and every other character is kept. For
/// other text Unicode's case table decides, which is not restated here.
#[verifier::external_body]
fn to_uppercase(s: &str) -> (r: String)
    ensures
        r@ == uppercase(s@),
        is_ascii_chars(s@) ==> r@ == ascii_upper(s@),
{
    s.to_uppercase()
}

/// `forensicnomicon::processes::is_system32_binary`: whether the name, ASCII lower-cased,
/// equals one of `WINDOWS_SYSTEM32_BINARIES` ASCII lower-cased.
#[verifier::external_body]
fn system32_binary(name: &str) -> (r: bool)
    ensures
        r == is_system32_binary_name(name@),
{
    forensicnomicon::processes::is_system32_binary(name)
}

/// `forensicnomicon::heuristics::paths::is_suspicious_exec_path`: whether the path, ASCII
/// lower-cased, contains one of `SUSPICIOUS_EXEC_PREFIXES` ASCII lower-cased.
#[verifier::external_body]
fn suspicious_exec_path(path: &str) -> (r: bool)
    ensures
        r == is_suspicious_exec_path(path@),
{
    forensicnomicon::heuristics::paths::is_suspicious_exec_path(path)
}

/// A graded ShimCache finding. Each variant is a high-precision triage signal: it stays
/// quiet on benign entries (a normal `System32` binary) and fires only on an anomalous pattern.
#[derive(Debug, Clone, PartialEq, Eq)]
pub enum ShimcacheAnomaly {
    /// A Windows system-binary name recorded at a path that is not under `System32`/`SysWOW64`
    /// — consistent with masquerading (`T1036.005`).
    SystemBinaryRelocated {
        /// The system-binary base name, upper-cased (e.g. `SVCHOST.EXE`).
        name: String,
        /// The full path ShimCache recorded.
        path: String,
    },
    /// An entry whose path is a directory commonly used to stage malware (Temp, Downloads,
    /// `$Recycle.Bin`, …) — `T1204`. `executed` carries the entry's execution flag.
    SuspiciousPath {
        /// The executable base name.
        executable: String,
        /// The suspicious path.
        path: String,
        /// Whether the entry's execution flag was set (`None` where the format has none).
        executed: Option<bool>,
    },
}

/// The mathematical value of a [`ShimcacheAnomaly`].
pub ghost enum AnomalyModel {
    SystemBinaryRelocated { name: Seq<char>, path: Seq<char> },
    SuspiciousPath { executable: Seq<char>, path: Seq<char>, executed: Option<bool> },
}

impl View for ShimcacheAnomaly {
    type V = AnomalyModel;

    open spec fn view(&self) -> AnomalyModel {
        match self {
            ShimcacheAnomaly::SystemBinaryRelocated { name, path } => AnomalyModel::SystemBinaryRelocated {
                name: name@,
                path: path@,
            },
            ShimcacheAnomaly::SuspiciousPath { executable, path, executed } => AnomalyModel::SuspiciousPath {
                executable: executable@,
                path: path@,
                executed: *executed,
            },
        }
    }
}

/// The models of a sequence of anomalies.
pub open spec fn anomalies_model(v: Seq<ShimcacheAnomaly>) -> Seq<AnomalyModel> {
    v.map_values(|a: ShimcacheAnomaly| a@)
}

/// `\SYSTEM32\` and `\SYSWOW64\`, the directories a system binary legitimately runs from.
pub open spec fn system32_dir() -> Seq<char> {
    seq!['\\', 'S', 'Y', 'S', 'T', 'E', 'M', '3', '2', '\\']
}

pub open spec fn syswow64_dir() -> Seq<char> {
    seq!['\\', 'S', 'Y', 'S', 'W', 'O', 'W', '6', '4', '\\']
}

/// Whether an (upper-cased) path lies under `System32` or `SysWOW64`.
pub open spec fn in_system_dir(upper: Seq<char>) -> bool {
    seq_contains(upper, system32_dir()) || seq_contains(upper, syswow64_dir())
}

/// The anomalies one entry raises, given what the outside calls answered for it: its path
/// upper-cased, its base name upper-cased, whether that base name is a `System32` binary and
/// whether its path is a staging directory. In order: the relocated-system-binary finding
/// (a `System32` binary whose upper-cased path is not under `System32`/`SysWOW64`), then the
/// suspicious-path finding.
pub open spec fn findings_for(
    e: EntryModel,
    upper_path: Seq<char>,
    upper_name: Seq<char>,
    system32_binary: bool,
    suspicious: bool,
) -> Seq<AnomalyModel> {
    let relocated = if system32_binary && !in_system_dir(upper_path) {
        seq![AnomalyModel::SystemBinaryRelocated { name: upper_name, path: e.path }]
    } else {
        Seq::empty()
    };
    let staged = if suspicious {
        seq![AnomalyModel::SuspiciousPath { executable: base_name(e.path), path: e.path, executed: e.executed }]
    } else {
        Seq::empty()
    };
    relocated + staged
}

/// The anomalies one entry raises.
pub open spec fn entry_anomalies(e: EntryModel) -> Seq<AnomalyModel> {
    let name = base_name(e.path);
    findings_for(
        e,
        uppercase(e.path),
        uppercase(name),
        is_system32_binary_name(name),
        is_suspicious_exec_path(e.path),
    )
}

/// The anomalies of a sequence of entries: each entry's findings, in entry order.
pub open spec fn spec_audit(es: Seq<EntryModel>) -> Seq<AnomalyModel>
    decreases es.len(),
{
    if es.len() == 0 {
        Seq::empty()
    } else {
        spec_audit(es.drop_last()) + entry_anomalies(es.last())
    }
}

/// Whether no relocated-system-binary finding names an ASCII path that lies, in any letter
/// case, under `System32` or `SysWOW64`.
pub open spec fn quiet_on_system_dirs(fs: Seq<AnomalyModel>) -> bool {
    forall|i: int| 0 <= i < fs.len() ==> (#[trigger] fs[i] matches AnomalyModel::SystemBinaryRelocated { path, .. }
        ==> !(is_ascii_chars(path) && in_system_dir(ascii_upper(path))))
}

fn system_dir_patterns() -> (r: (Vec<char>, Vec<char>))
    ensures
        r.0@ == system32_dir(),
        r.1@ == syswow64_dir(),
{
    let a = vec!['\\', 'S', 'Y', 'S', 'T', 'E', 'M', '3', '2', '\\'];
    let b = vec!['\\', 'S', 'Y', 'S', 'W', 'O', 'W', '6', '4', '\\'];
    assert(a@ =~= system32_dir());
    assert(b@ =~= syswow64_dir());
    (a, b)
}

/// The findings for one entry, given the answers of the outside calls about it (see
/// [`findings_for`]): `upper_path` and `upper_name` are the entry's path and base name
/// upper-cased, `system32_binary` whether the base name is a `System32` binary, `suspicious`
/// whether the path is a staging directory.
pub fn classify_entry(
    entry: &ShimcacheEntry,
    upper_path: &str,
    upper_name: &str,
    system32_binary: bool,
    suspicious: bool,
) -> (out: Vec<ShimcacheAnomaly>)
    ensures
        anomalies_model(out@) == findings_for(entry@, upper_path@, upper_name@, system32_binary, suspicious),
        system32_binary && !seq_contains(upper_path@, seq!['\\', 'S', 'Y', 'S', 'T', 'E', 'M', '3', '2', '\\'])
            && !seq_contains(upper_path@, seq!['\\', 'S', 'Y', 'S', 'W', 'O', 'W', '6', '4', '\\'])
            ==> anomalies_model(out@).contains(
            AnomalyModel::SystemBinaryRelocated { name: upper_name@, path: entry.path@ },
        ),
        suspicious ==> anomalies_model(out@).contains(
            AnomalyModel::SuspiciousPath {
                executable: base_name(entry.path@),
                path: entry.path@,
                executed: entry.executed,
            },
        ),
{
    let (sys32, wow64) = system_dir_patterns();
    let upper = chars_of(upper_path);
    let in_system = contains_chars(&upper, &sys32) || contains_chars(&upper, &wow64);
    let mut out: Vec<ShimcacheAnomaly> = Vec::new();
    if system32_binary && !in_system {
        out.push(ShimcacheAnomaly::SystemBinaryRelocated {
            name: upper_name.to_owned(),
            path: entry.path.clone(),
        });
    }
    if suspicious {
        let a = ShimcacheAnomaly::SuspiciousPath {
            executable: base_name_of(entry.path.as_str()),
            path: entry.path.clone(),
            executed: entry.executed,
        };
        assert(anomalies_model(out@.push(a)) =~= anomalies_model(out@).push(a@));
        out.push(a);
    }
    let ghost found = anomalies_model(out@);
    assert(found =~= findings_for(entry@, upper_path@, upper_name@, system32_binary, suspicious));
    assert(system32_dir() =~= seq!['\\', 'S', 'Y', 'S', 'T', 'E', 'M', '3', '2', '\\']);
    assert(syswow64_dir() =~= seq!['\\', 'S', 'Y', 'S', 'W', 'O', 'W', '6', '4', '\\']);
    if system32_binary && !in_system {
        assert(found[0] == AnomalyModel::SystemBinaryRelocated { name: upper_name@, path: entry.path@ });
    }
    if suspicious {
        assert(found[found.len() - 1] == AnomalyModel::SuspiciousPath {
            executable: base_name(entry.path@),
            path: entry.path@,
            executed: entry.executed,
        });
    }
    out
}

/// Audit decoded ShimCache entries for graded anomalies (may be empty). A system binary whose
/// ASCII path lies under `System32` or `SysWOW64`, in any letter case, is never reported as
/// relocated.
pub fn audit(entries: &[ShimcacheEntry]) -> (out: Vec<ShimcacheAnomaly>)
    ensures
        anomalies_model(out@) == spec_audit(entries_model(entries@)),
        quiet_on_system_dirs(anomalies_model(out@)),
{
    let ghost es = entries_model(entries@);
    let mut out: Vec<ShimcacheAnomaly> = Vec::new();
    let mut i: usize = 0;
    proof {
        assert(es.take(0) =~= Seq::<EntryModel>::empty());
        assert(anomalies_model(out@) =~= Seq::<AnomalyModel>::empty());
    }
    while i < entries.len()
        invariant
            es == entries_model(entries@),
            i <= entries.len(),
            anomalies_model(out@) == spec_audit(es.take(i as int)),
            quiet_on_system_dirs(anomalies_model(out@)),
        decreases entries.len() - i,
    {
        let e = &entries[i];
        let ghost before = anomalies_model(out@);
        let name = base_name_of(e.path.as_str());
        let upper_path = to_uppercase(e.path.as_str());
        let upper_name = to_uppercase(name.as_str());
        let mut found = classify_entry(
            e,
            upper_path.as_str(),
            upper_name.as_str(),
            system32_binary(name.as_str()),
            suspicious_exec_path(e.path.as_str()),
        );
        let ghost added = anomalies_model(found@);
        proof {
            assert(es[i as int] == entries@[i as int]@);
            assert(added == entry_anomalies(es[i as int]));
            assert forall|k: int| 0 <= k < added.len() implies (#[trigger] added[k] matches
                AnomalyModel::SystemBinaryRelocated { path, .. }
                ==> !(is_ascii_chars(path) && in_system_dir(ascii_upper(path)))) by {
                if added[k] is SystemBinaryRelocated {
                    assert(k == 0);
                    assert(!in_system_dir(upper_path@));
                }
            }
        }
        out.append(&mut found);
        proof {
            assert(anomalies_model(out@) =~= before + added);
            assert(es.take(i + 1).drop_last() =~= es.take(i as int));
            assert(es.take(i + 1).last() == es[i as int]);
            assert forall|k: int| 0 <= k < anomalies_model(out@).len() implies (#[trigger] anomalies_model(out@)[k] matches
                AnomalyModel::SystemBinaryRelocated { path, .. }
                ==> !(is_ascii_chars(path) && in_system_dir(ascii_upper(path)))) by {
                if k < before.len() {
                    assert(anomalies_model(out@)[k] == before[k]);
                } else {
                    assert(anomalies_model(out@)[k] == added[k - before.len()]);
                }
            }
        }
        i = i + 1;
    }
    proof {
        assert(es.take(entries.len() as int) =~= es);
    }
    out
}

} // verus!
