//! Analyzer tests: the audit heuristics, the plain-text parts of each finding, and
//! `analyze_blob` end to end on synthetic caches.

use shimcache_forensic::detect::SIG_WIN7;
use shimcache_forensic::{
    analyze_blob, audit, subject_path, ShimcacheAnomaly, ShimcacheEntry, ShimcacheError,
    ShimcacheFormat,
};

fn entry(path: &str, executed: Option<bool>) -> ShimcacheEntry {
    ShimcacheEntry {
        path: path.to_string(),
        last_modified_filetime: 0,
        executed,
    }
}

fn utf16(s: &str) -> Vec<u8> {
    s.encode_utf16().flat_map(u16::to_le_bytes).collect()
}

fn build_win7_64(entries: &[(&str, u64, bool)]) -> Vec<u8> {
    let n = entries.len();
    let mut header = vec![0u8; 128];
    header[0..4].copy_from_slice(&SIG_WIN7.to_le_bytes());
    header[4..8].copy_from_slice(&(n as u32).to_le_bytes());
    let paths_start = 128 + n * 48;
    let mut records = vec![0u8; n * 48];
    let mut paths = Vec::new();
    for (i, (path, ft, exec)) in entries.iter().enumerate() {
        let p = utf16(path);
        let off = (paths_start + paths.len()) as u64;
        let r = &mut records[i * 48..i * 48 + 48];
        r[0..2].copy_from_slice(&(p.len() as u16).to_le_bytes());
        r[2..4].copy_from_slice(&(p.len() as u16).to_le_bytes());
        r[8..16].copy_from_slice(&off.to_le_bytes());
        r[16..24].copy_from_slice(&ft.to_le_bytes());
        r[24..28].copy_from_slice(&(if *exec { 2u32 } else { 0 }).to_le_bytes());
        paths.extend_from_slice(&p);
    }
    [header, records, paths].concat()
}

#[test]
fn system_binary_at_non_system_path_flags_masquerading() {
    let anomalies = audit(&[entry(r"C:\Temp\svchost.exe", Some(true))]);
    assert!(anomalies.iter().any(|a| matches!(
        a,
        ShimcacheAnomaly::SystemBinaryRelocated { name, .. } if name == "SVCHOST.EXE"
    )));
}

#[test]
fn system_binary_in_system32_is_not_flagged() {
    let anomalies = audit(&[entry(r"C:\Windows\System32\svchost.exe", Some(true))]);
    assert!(
        !anomalies
            .iter()
            .any(|a| matches!(a, ShimcacheAnomaly::SystemBinaryRelocated { .. })),
        "a System32 svchost must not be flagged: {anomalies:?}"
    );
}

#[test]
fn suspicious_path_carries_the_execution_flag() {
    let anomalies = audit(&[entry(r"C:\Users\a\AppData\Local\Temp\dropper.exe", Some(true))]);
    match anomalies
        .iter()
        .find(|a| matches!(a, ShimcacheAnomaly::SuspiciousPath { .. }))
    {
        Some(ShimcacheAnomaly::SuspiciousPath {
            executable,
            executed,
            ..
        }) => {
            assert_eq!(executable, "dropper.exe");
            assert_eq!(*executed, Some(true));
        }
        other => panic!("expected SuspiciousPath, got {other:?}"),
    }
}

#[test]
fn benign_application_yields_no_anomaly() {
    let anomalies = audit(&[entry(r"C:\Program Files\App\app.exe", Some(true))]);
    assert!(anomalies.is_empty(), "benign path should be quiet: {anomalies:?}");
}

#[test]
fn analyze_blob_rejects_garbage_with_a_named_error() {
    let err = analyze_blob(&[0u8; 2], "cs").unwrap_err();
    assert!(matches!(err, ShimcacheError::TooShort { len: 2 }));
    assert!(err.to_string().contains("too short"));
}

// ── Further cases ───────────────────────────────────────────────────────────────────────────

#[test]
fn relocated_system_binary_in_temp_raises_both_findings_in_order() {
    let anomalies = audit(&[entry(r"C:\Temp\svchost.exe", Some(false))]);
    assert_eq!(
        anomalies,
        vec![
            ShimcacheAnomaly::SystemBinaryRelocated {
                name: "SVCHOST.EXE".to_string(),
                path: r"C:\Temp\svchost.exe".to_string(),
            },
            ShimcacheAnomaly::SuspiciousPath {
                executable: "svchost.exe".to_string(),
                path: r"C:\Temp\svchost.exe".to_string(),
                executed: Some(false),
            },
        ]
    );
}

#[test]
fn system_dirs_are_matched_case_insensitively() {
    for p in [
        r"c:\windows\system32\lsass.exe",
        r"C:\Windows\SysWOW64\rundll32.exe",
        r"C:\WINDOWS\SYSTEM32\csrss.exe",
    ] {
        assert!(audit(&[entry(p, None)]).is_empty(), "{p}");
    }
    // A directory merely named like System32 without the surrounding separators still counts
    // as outside it.
    let a = audit(&[entry(r"C:\System32x\lsass.exe", None)]);
    assert!(matches!(&a[..], [ShimcacheAnomaly::SystemBinaryRelocated { .. }]));
}

#[test]
fn base_name_uses_the_last_separator_of_either_kind() {
    let a = audit(&[entry(r"C:\Users\x\Downloads\sub/tool.exe", None)]);
    match &a[..] {
        [ShimcacheAnomaly::SuspiciousPath { executable, executed, .. }] => {
            assert_eq!(executable, "tool.exe");
            assert_eq!(*executed, None);
        }
        other => panic!("unexpected {other:?}"),
    }
}

#[test]
fn audit_is_entry_by_entry() {
    let first = [entry(r"C:\Temp\a.exe", Some(true))];
    let second = [entry(r"C:\Program Files\b.exe", None), entry(r"D:\$Recycle.Bin\c.exe", None)];
    let both: Vec<ShimcacheEntry> = first.iter().chain(second.iter()).cloned().collect();
    let mut expected = audit(&first);
    expected.extend(audit(&second));
    assert_eq!(audit(&both), expected);
    assert_eq!(audit(&both).len(), 2);
    assert!(audit(&[]).is_empty());
}

#[test]
fn finding_text_parts() {
    let a = ShimcacheAnomaly::SystemBinaryRelocated {
        name: "SVCHOST.EXE".to_string(),
        path: r"C:\Temp\svchost.exe".to_string(),
    };
    assert_eq!(a.code(), "SHIMCACHE-SYSTEM-BINARY-RELOCATED");
    assert_eq!(a.mitre(), &["T1036.005"]);
    assert_eq!(
        a.note(),
        r"SVCHOST.EXE is a Windows system binary, but AppCompatCache recorded it at C:\Temp\svchost.exe — consistent with masquerading."
    );
    assert_eq!(subject_path(&a), r"C:\Temp\svchost.exe");
    for (executed, phrase) in [
        (Some(true), " (execution flag set)"),
        (Some(false), " (no execution flag)"),
        (None, ""),
    ] {
        let s = ShimcacheAnomaly::SuspiciousPath {
            executable: "x.exe".to_string(),
            path: r"C:\Temp\x.exe".to_string(),
            executed,
        };
        assert_eq!(s.code(), "SHIMCACHE-SUSPICIOUS-PATH");
        assert_eq!(s.mitre(), &["T1204"]);
        assert_eq!(
            s.note(),
            format!(
                r"x.exe at C:\Temp\x.exe sits in a directory commonly used to stage malware{phrase} — consistent with suspicious execution."
            )
        );
        assert_eq!(subject_path(&s), r"C:\Temp\x.exe");
    }
}

#[test]
fn analyze_blob_reports_format_entries_and_findings() {
    let blob = build_win7_64(&[
        (r"C:\Windows\system32\LogonUI.exe", 129_347_834_495_725_262, true),
        (r"C:\$Recycle.Bin\S-1-5-21\$RJEMT64.exe", 5, false),
        (r"C:\Users\u\AppData\Local\Temp\setup.exe", 6, true),
    ]);
    let report = analyze_blob(&blob, "ControlSet001").unwrap();
    assert_eq!(report.format, ShimcacheFormat::Win7_64);
    assert_eq!(report.control_set, "ControlSet001");
    assert_eq!(report.entries.len(), 3);
    assert_eq!(report.entries[0].path, r"C:\Windows\system32\LogonUI.exe");
    assert_eq!(report.entries[0].last_modified_filetime, 129_347_834_495_725_262);
    assert_eq!(report.anomalies.len(), 2);
    assert!(report
        .anomalies
        .iter()
        .all(|a| matches!(a, ShimcacheAnomaly::SuspiciousPath { .. })));
    assert!(report.anomalies.iter().any(|a| matches!(
        a,
        ShimcacheAnomaly::SuspiciousPath { path, executed: Some(false), .. } if path.contains(r"$Recycle.Bin")
    )));
}

#[test]
fn analyze_blob_names_an_unknown_signature() {
    let err = analyze_blob(&0xcafe_f00du32.to_le_bytes(), "").unwrap_err();
    assert_eq!(err, ShimcacheError::UnknownSignature { signature: 0xcafe_f00d });
    assert_eq!(err.to_string(), "unknown AppCompatCache signature 0xcafef00d");
}

#[test]
fn classify_entry_flags_a_system_binary_outside_system_dirs() {
    let e = entry(r"D:\Tools\lsass.exe", Some(false));
    let found = shimcache_forensic::audit::classify_entry(
        &e,
        r"D:\TOOLS\LSASS.EXE",
        "LSASS.EXE",
        true,
        false,
    );
    assert_eq!(
        found,
        vec![ShimcacheAnomaly::SystemBinaryRelocated {
            name: "LSASS.EXE".to_string(),
            path: r"D:\Tools\lsass.exe".to_string(),
        }]
    );
}

#[test]
fn classify_entry_is_quiet_under_syswow64() {
    let e = entry(r"C:\Windows\SysWOW64\svchost.exe", None);
    let found = shimcache_forensic::audit::classify_entry(
        &e,
        r"C:\WINDOWS\SYSWOW64\SVCHOST.EXE",
        "SVCHOST.EXE",
        true,
        false,
    );
    assert!(found.is_empty());
}

#[test]
fn classify_entry_reports_both_findings_in_order() {
    let e = entry(r"C:\Users\Public\svchost.exe", Some(true));
    let found = shimcache_forensic::audit::classify_entry(
        &e,
        r"C:\USERS\PUBLIC\SVCHOST.EXE",
        "SVCHOST.EXE",
        true,
        true,
    );
    assert_eq!(
        found,
        vec![
            ShimcacheAnomaly::SystemBinaryRelocated {
                name: "SVCHOST.EXE".to_string(),
                path: r"C:\Users\Public\svchost.exe".to_string(),
            },
            ShimcacheAnomaly::SuspiciousPath {
                executable: "svchost.exe".to_string(),
                path: r"C:\Users\Public\svchost.exe".to_string(),
                executed: Some(true),
            },
        ]
    );
}

#[test]
fn classify_entry_without_outside_hits_reports_nothing() {
    let e = entry(r"C:\Temp\notepad.exe", Some(true));
    let found = shimcache_forensic::audit::classify_entry(&e, r"C:\TEMP\NOTEPAD.EXE", "NOTEPAD.EXE", false, false);
    assert!(found.is_empty());
}

#[test]
fn system32_in_mixed_case_is_not_flagged() {
    let anomalies = audit(&[
        entry(r"c:\windows\sYsTeM32\svchost.exe", Some(true)),
        entry(r"C:\WINDOWS\syswow64\RUNDLL32.EXE", None),
    ]);
    assert!(anomalies.is_empty(), "{anomalies:?}");
}

#[test]
fn system32_name_match_ignores_letter_case() {
    let anomalies = audit(&[entry(r"C:\ProgramFiles\WinLogon.Exe", Some(true))]);
    assert_eq!(
        anomalies,
        vec![ShimcacheAnomaly::SystemBinaryRelocated {
            name: "WINLOGON.EXE".to_string(),
            path: r"C:\ProgramFiles\WinLogon.Exe".to_string(),
        }]
    );
}

#[test]
fn staging_fragment_match_ignores_letter_case() {
    let anomalies = audit(&[entry(r"C:\PERFLOGS\tool.exe", None)]);
    assert_eq!(
        anomalies,
        vec![ShimcacheAnomaly::SuspiciousPath {
            executable: "tool.exe".to_string(),
            path: r"C:\PERFLOGS\tool.exe".to_string(),
            executed: None,
        }]
    );
}
