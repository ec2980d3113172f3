//! Decode-then-audit of an AppCompatCache value, and the plain-text parts of each finding.

use vstd::prelude::*;
use crate::audit::{anomalies_model, audit, spec_audit, AnomalyModel, ShimcacheAnomaly};
use crate::detect::{detect_format, spec_detect_format};
use crate::model::{entries_model, EntryModel, ShimcacheEntry, ShimcacheError, ShimcacheFormat};
use crate::parse::{parse, spec_parse};

verus! {

/// The result of analyzing an AppCompatCache value.
#[derive(Debug, Clone)]
pub struct ShimcacheReport {
    /// The control set the value was read from (e.g. `ControlSet001`), for provenance.
    pub control_set: String,
    /// The detected AppCompatCache format.
    pub format: ShimcacheFormat,
    /// The decoded cache entries, in cache order (most-recent first).
    pub entries: Vec<ShimcacheEntry>,
    /// Graded anomalies (may be empty).
    pub anomalies: Vec<ShimcacheAnomaly>,
}

/// Decode an AppCompatCache value blob and audit it. `control_set` is recorded on the report
/// for provenance (e.g. `"ControlSet001"`, or `""` if unknown).
///
/// Succeeds exactly when `parse` does; the report then holds the detected format, the decoded
/// entries and their audit. Fails with `parse`'s error otherwise.
pub fn analyze_blob(blob: &[u8], control_set: &str) -> (r: Result<ShimcacheReport, ShimcacheError>)
    ensures
        match r {
            Ok(report) => {
                &&& spec_parse(blob@) == Ok::<Seq<EntryModel>, ShimcacheError>(entries_model(report.entries@))
                &&& spec_detect_format(blob@) == Some(report.format)
                &&& report.control_set@ == control_set@
                &&& anomalies_model(report.anomalies@) == spec_audit(entries_model(report.entries@))
            },
            Err(e) => spec_parse(blob@) == Err::<Seq<EntryModel>, ShimcacheError>(e),
        },
{
    let entries = match parse(blob) {
        Ok(v) => v,
        Err(e) => return Err(e),
    };
    let format = match detect_format(blob) {
        Some(f) => f,
        None => {
            proof {
                crate::laws::law_decodes_iff_detected(blob@);
            }
            return Err(ShimcacheError::TooShort { len: blob.len() });
        },
    };
    let anomalies = audit(entries.as_slice());
    Ok(ShimcacheReport { control_set: control_set.to_owned(), format, entries, anomalies })
}

impl ShimcacheAnomaly {
    /// The finding's stable, scheme-prefixed code.
    pub fn code(&self) -> (r: &'static str)
        ensures
            r@ == anomaly_code(self@),
    {
        match self {
            ShimcacheAnomaly::SystemBinaryRelocated { .. } => "SHIMCACHE-SYSTEM-BINARY-RELOCATED",
            ShimcacheAnomaly::SuspiciousPath { .. } => "SHIMCACHE-SUSPICIOUS-PATH",
        }
    }

    /// The MITRE ATT&CK techniques the finding is consistent with.
    pub fn mitre(&self) -> (r: &'static [&'static str])
        ensures
            r@.len() == 1,
            r@[0]@ == (match self@ {
                AnomalyModel::SystemBinaryRelocated { .. } => "T1036.005"@,
                AnomalyModel::SuspiciousPath { .. } => "T1204"@,
            }),
    {
        match self {
            ShimcacheAnomaly::SystemBinaryRelocated { .. } => &["T1036.005"],
            ShimcacheAnomaly::SuspiciousPath { .. } => &["T1204"],
        }
    }
}

/// The finding's stable, scheme-prefixed code.
pub open spec fn anomaly_code(a: AnomalyModel) -> Seq<char> {
    match a {
        AnomalyModel::SystemBinaryRelocated { .. } => "SHIMCACHE-SYSTEM-BINARY-RELOCATED"@,
        AnomalyModel::SuspiciousPath { .. } => "SHIMCACHE-SUSPICIOUS-PATH"@,
    }
}

/// The finding's severity grade as printed: `HIGH` for masquerading, `MEDIUM` for a staging
/// directory.
pub open spec fn anomaly_severity_label(a: AnomalyModel) -> Seq<char> {
    match a {
        AnomalyModel::SystemBinaryRelocated { .. } => "HIGH"@,
        AnomalyModel::SuspiciousPath { .. } => "MEDIUM"@,
    }
}

/// The finding's path (the subject a one-line summary points at).
pub open spec fn anomaly_path(a: AnomalyModel) -> Seq<char> {
    match a {
        AnomalyModel::SystemBinaryRelocated { path, .. } => path,
        AnomalyModel::SuspiciousPath { path, .. } => path,
    }
}

/// How a suspicious-path note phrases the entry's execution state.
pub open spec fn execution_phrase(executed: Option<bool>) -> Seq<char> {
    match executed {
        Some(true) => " (execution flag set)"@,
        Some(false) => " (no execution flag)"@,
        None => Seq::empty(),
    }
}

/// The human-readable, consistent-with note of a finding.
pub open spec fn anomaly_note(a: AnomalyModel) -> Seq<char> {
    match a {
        AnomalyModel::SystemBinaryRelocated { name, path } => name
            + " is a Windows system binary, but AppCompatCache recorded it at "@ + path
            + " — consistent with masquerading."@,
        AnomalyModel::SuspiciousPath { executable, path, executed } => executable + " at "@
            + path + " sits in a directory commonly used to stage malware"@
            + execution_phrase(executed) + " — consistent with suspicious execution."@,
    }
}

/// The path a finding points at (for a one-line summary).
pub fn subject_path(a: &ShimcacheAnomaly) -> (r: &str)
    ensures
        r@ == anomaly_path(a@),
{
    match a {
        ShimcacheAnomaly::SystemBinaryRelocated { path, .. } => path.as_str(),
        ShimcacheAnomaly::SuspiciousPath { path, .. } => path.as_str(),
    }
}

impl ShimcacheAnomaly {
    /// The finding's severity grade as printed (`HIGH` or `MEDIUM`).
    pub fn severity_label(&self) -> (r: &'static str)
        ensures
            r@ == anomaly_severity_label(self@),
    {
        match self {
            ShimcacheAnomaly::SystemBinaryRelocated { .. } => "HIGH",
            ShimcacheAnomaly::SuspiciousPath { .. } => "MEDIUM",
        }
    }

    /// The human-readable note: an observation ("consistent with ..."), never a verdict.
    pub fn note(&self) -> (r: String)
        ensures
            r@ == anomaly_note(self@),
    {
        match self {
            ShimcacheAnomaly::SystemBinaryRelocated { name, path } => {
                let mut s = name.clone();
                s.append(" is a Windows system binary, but AppCompatCache recorded it at ");
                s.append(path.as_str());
                s.append(" — consistent with masquerading.");
                s
            },
            ShimcacheAnomaly::SuspiciousPath { executable, path, executed } => {
                let ran = match executed {
                    Some(true) => " (execution flag set)",
                    Some(false) => " (no execution flag)",
                    None => "",
                };
                proof {
                    reveal_strlit("");
                }
                let mut s = executable.clone();
                s.append(" at ");
                s.append(path.as_str());
                s.append(" sits in a directory commonly used to stage malware");
                s.append(ran);
                s.append(" — consistent with suspicious execution.");
                s
            },
        }
    }
}

} // verus!
