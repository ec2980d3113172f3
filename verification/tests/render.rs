//! Report rendering and the hive-level entry point.

use std::cell::{Cell, RefCell};

use shimcache_forensic::detect::SIG_WIN7;
use shimcache_forensic::hive::{analyze_hive, appcompatcache_blob};
use shimcache_forensic::render::{format_label, render_report};
use shimcache_forensic::{
    analyze_blob, ShimcacheAnomaly, ShimcacheEntry, ShimcacheFormat, ShimcacheReport,
};

fn utf16(s: &str) -> Vec<u8> {
    s.encode_utf16().flat_map(u16::to_le_bytes).collect()
}

fn build_win7_64(entries: &[(&str, u64, bool)]) -> Vec<u8> {
    let n = entries.len();
    let mut header = vec![0u8; 128];
    header[0..4].copy_from_slice(&SIG_WIN7.to_le_bytes());
    header[4..8].copy_from_slice(&(n as u32).to_le_bytes());
    let paths_start = 128 + n * 48;
    let mut records = vec![0u8; n * 48];
    let mut paths = Vec::new();
    for (i, (path, ft, exec)) in entries.iter().enumerate() {
        let p = utf16(path);
        let off = (paths_start + paths.len()) as u64;
        let r = &mut records[i * 48..i * 48 + 48];
        r[0..2].copy_from_slice(&(p.len() as u16).to_le_bytes());
        r[2..4].copy_from_slice(&(p.len() as u16).to_le_bytes());
        r[8..16].copy_from_slice(&off.to_le_bytes());
        r[16..24].copy_from_slice(&ft.to_le_bytes());
        r[24..28].copy_from_slice(&(if *exec { 2u32 } else { 0 }).to_le_bytes());
        paths.extend_from_slice(&p);
    }
    [header, records, paths].concat()
}

#[test]
fn report_without_findings_or_list() {
    let report = ShimcacheReport {
        control_set: "ControlSet002".to_string(),
        format: ShimcacheFormat::Win10,
        entries: vec![],
        anomalies: vec![],
    };
    assert_eq!(
        render_report(&report, false),
        "AppCompatCache: Win10, ControlSet002, 0 entries\nFindings: none\n"
    );
}

#[test]
fn report_with_findings_and_entry_list() {
    let blob = build_win7_64(&[
        (r"C:\Temp\svchost.exe", 0, true),
        (r"C:\Program Files\a.exe", 129_347_834_495_725_262, false),
    ]);
    let mut report = analyze_blob(&blob, "ControlSet001").unwrap();
    report.entries.push(ShimcacheEntry {
        path: r"C:\x.exe".to_string(),
        last_modified_filetime: 5,
        executed: None,
    });
    let text = render_report(&report, true);
    let lines: Vec<&str> = text.lines().collect();
    assert_eq!(lines[0], "AppCompatCache: Win7_64, ControlSet001, 3 entries");
    assert_eq!(lines[1], "Findings (2):");
    assert_eq!(lines[2], r"  [HIGH] SHIMCACHE-SYSTEM-BINARY-RELOCATED  C:\Temp\svchost.exe");
    assert_eq!(
        lines[3],
        r"    SVCHOST.EXE is a Windows system binary, but AppCompatCache recorded it at C:\Temp\svchost.exe — consistent with masquerading."
    );
    assert_eq!(lines[4], r"  [MEDIUM] SHIMCACHE-SUSPICIOUS-PATH  C:\Temp\svchost.exe");
    assert!(lines[5].starts_with("    svchost.exe at C:\\Temp\\svchost.exe sits in a directory"));
    assert_eq!(lines[6], "");
    assert_eq!(lines[7], "Entries (most-recent first):");
    assert_eq!(lines[8], r"  -  executed  C:\Temp\svchost.exe");
    assert!(lines[9].starts_with("  2010-11-21T03:24:09"), "{}", lines[9]);
    assert!(lines[9].ends_with(r"  present   C:\Program Files\a.exe"), "{}", lines[9]);
    assert_eq!(lines[10], r"  -  -         C:\x.exe");
    assert_eq!(lines.len(), 11);
    assert!(text.ends_with('\n'));
    // Without `list`, the text stops after the findings.
    let short = render_report(&report, false);
    assert_eq!(short.lines().count(), 6);
    assert!(matches!(report.anomalies[0], ShimcacheAnomaly::SystemBinaryRelocated { .. }));
    assert_eq!(report.anomalies[0].severity_label(), "HIGH");
}

#[test]
fn format_labels_name_every_layout() {
    assert_eq!(format_label(ShimcacheFormat::WinXp), "WinXp");
    assert_eq!(format_label(ShimcacheFormat::Win2003_32), "Win2003_32");
    assert_eq!(format_label(ShimcacheFormat::Win2003_64), "Win2003_64");
    assert_eq!(format_label(ShimcacheFormat::Win7_32), "Win7_32");
    assert_eq!(format_label(ShimcacheFormat::Win7_64), "Win7_64");
    assert_eq!(format_label(ShimcacheFormat::Win8_0), "Win8_0");
    assert_eq!(format_label(ShimcacheFormat::Win8_1), "Win8_1");
    assert_eq!(format_label(ShimcacheFormat::Win10), "Win10");
    for f in [ShimcacheFormat::WinXp, ShimcacheFormat::Win7_64, ShimcacheFormat::Win10] {
        assert_eq!(format_label(f), format!("{f:?}"));
    }
}

#[test]
fn control_sets_are_searched_in_order() {
    let asked = RefCell::new(Vec::new());
    let blob = build_win7_64(&[(r"C:\Temp\a.exe", 1, true)]);
    let lookup = |key: &str| {
        asked.borrow_mut().push(key.to_string());
        if key.starts_with("ControlSet001") {
            Ok(Some(Vec::new())) // present but empty: move on
        } else {
            Ok(Some(blob.clone()))
        }
    };
    let (cs, found) = appcompatcache_blob(lookup).unwrap();
    assert_eq!(cs, "ControlSet002");
    assert_eq!(found, blob);
    assert_eq!(
        *asked.borrow(),
        vec![
            r"ControlSet001\Control\Session Manager\AppCompatCache".to_string(),
            r"ControlSet002\Control\Session Manager\AppCompatCache".to_string(),
        ]
    );
}

#[test]
fn first_read_error_ends_the_search() {
    let calls = Cell::new(0);
    let r = appcompatcache_blob(|_key: &str| {
        calls.set(calls.get() + 1);
        Err("Invalid regf signature".to_string())
    });
    assert_eq!(r, Err("Invalid regf signature".to_string()));
    assert_eq!(calls.get(), 1);
}

#[test]
fn missing_value_everywhere_is_a_fixed_message() {
    let r = appcompatcache_blob(|_key: &str| Ok(None));
    assert_eq!(
        r,
        Err("no AppCompatCache value found (checked ControlSet001/002 Session Manager)".to_string())
    );
}

#[test]
fn analyze_hive_decodes_the_chosen_value() {
    let blob = build_win7_64(&[(r"C:\Temp\a.exe", 1, true)]);
    let report = analyze_hive(|key: &str| {
        if key.starts_with("ControlSet001") {
            Ok(Some(blob.clone()))
        } else {
            Ok(None)
        }
    })
    .unwrap();
    assert_eq!(report.control_set, "ControlSet001");
    assert_eq!(report.format, ShimcacheFormat::Win7_64);
    assert_eq!(report.entries.len(), 1);
    assert_eq!(report.anomalies.len(), 1);
    let err = analyze_hive(|_key: &str| Ok(Some(vec![1u8, 2]))).unwrap_err();
    assert_eq!(err, "AppCompatCache blob too short: 2 bytes");
}
