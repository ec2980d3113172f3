//! Decoder tests: spec-faithful synthetic blobs for each format variant, error paths, and
//! robustness on truncated input.

use shimcache_forensic::detect::{
    SIG_WIN10, SIG_WIN10_CREATORS, SIG_WIN2003_VISTA, SIG_WIN7, SIG_WIN8, SIG_WINXP,
};
use shimcache_forensic::{detect_format, parse, ShimcacheError, ShimcacheFormat};

const ENTRY_SIG_8_1: &[u8; 4] = b"10ts";
const ENTRY_SIG_8_0: &[u8; 4] = b"00ts";

fn utf16(s: &str) -> Vec<u8> {
    s.encode_utf16().flat_map(u16::to_le_bytes).collect()
}

/// Build a Windows 7 32-bit blob from `(path, filetime, executed)` entries: 128-byte header,
/// 32-byte fixed records, then a path region the records point into.
fn build_win7_32(entries: &[(&str, u64, bool)]) -> Vec<u8> {
    let n = entries.len();
    let mut header = vec![0u8; 128];
    header[0..4].copy_from_slice(&SIG_WIN7.to_le_bytes());
    header[4..8].copy_from_slice(&(n as u32).to_le_bytes());
    let records_start = 128;
    let paths_start = records_start + n * 32;
    let mut records = vec![0u8; n * 32];
    let mut paths = Vec::new();
    for (i, (path, ft, exec)) in entries.iter().enumerate() {
        let pbytes = utf16(path);
        let path_offset = (paths_start + paths.len()) as u32;
        let r = &mut records[i * 32..i * 32 + 32];
        r[0..2].copy_from_slice(&(pbytes.len() as u16).to_le_bytes());
        r[2..4].copy_from_slice(&(pbytes.len() as u16).to_le_bytes());
        r[4..8].copy_from_slice(&path_offset.to_le_bytes());
        r[8..16].copy_from_slice(&ft.to_le_bytes());
        r[16..20].copy_from_slice(&(if *exec { 2u32 } else { 0 }).to_le_bytes());
        paths.extend_from_slice(&pbytes);
    }
    [header, records, paths].concat()
}

/// Build a Windows 8.0/8.1 or Windows 10 blob (self-delimiting inline-path entries).
fn build_modern(
    sig: u32,
    entry_sig: [u8; 4],
    entries: &[(&str, u64, Option<bool>)],
    v8_1: bool,
    v10: bool,
) -> Vec<u8> {
    let header_size = if v10 { sig as usize } else { 128 };
    let mut out = vec![0u8; header_size];
    out[0..4].copy_from_slice(&sig.to_le_bytes());
    for (path, ft, exec) in entries {
        let pbytes = utf16(path);
        let mut body = Vec::new();
        body.extend_from_slice(&(pbytes.len() as u16).to_le_bytes());
        body.extend_from_slice(&pbytes);
        if v10 {
            body.extend_from_slice(&ft.to_le_bytes());
            body.extend_from_slice(&0u32.to_le_bytes());
        } else {
            let flags = if exec.unwrap_or(false) { 2u32 } else { 0 };
            body.extend_from_slice(&flags.to_le_bytes());
            body.extend_from_slice(&0u32.to_le_bytes());
            if v8_1 {
                body.extend_from_slice(&0u16.to_le_bytes());
            }
            body.extend_from_slice(&ft.to_le_bytes());
            body.extend_from_slice(&0u32.to_le_bytes());
        }
        out.extend_from_slice(&entry_sig);
        out.extend_from_slice(&0u32.to_le_bytes());
        out.extend_from_slice(&(body.len() as u32).to_le_bytes());
        out.extend_from_slice(&body);
    }
    out
}

/// Build a Windows XP blob: 400-byte header + fixed 552-byte entries with a 528-byte inline path.
fn build_xp(entries: &[(&str, u64)]) -> Vec<u8> {
    let mut blob = vec![0u8; 400];
    blob[0..4].copy_from_slice(&SIG_WINXP.to_le_bytes());
    blob[4..8].copy_from_slice(&(entries.len() as u32).to_le_bytes());
    for (path, ft) in entries {
        let mut entry = vec![0u8; 552];
        let p = utf16(path);
        entry[..p.len()].copy_from_slice(&p);
        entry[528..536].copy_from_slice(&ft.to_le_bytes());
        blob.extend_from_slice(&entry);
    }
    blob
}

/// Build a Windows 2003 32-bit blob: 8-byte header + 24-byte records + a trailing path region.
fn build_2003_32(entries: &[(&str, u64)]) -> Vec<u8> {
    let n = entries.len();
    let mut header = vec![0u8; 8];
    header[0..4].copy_from_slice(&SIG_WIN2003_VISTA.to_le_bytes());
    header[4..8].copy_from_slice(&(n as u32).to_le_bytes());
    let paths_start = 8 + n * 24;
    let mut records = vec![0u8; n * 24];
    let mut paths = Vec::new();
    for (i, (path, ft)) in entries.iter().enumerate() {
        let p = utf16(path);
        let off = (paths_start + paths.len()) as u32;
        let r = &mut records[i * 24..i * 24 + 24];
        r[0..2].copy_from_slice(&(p.len() as u16).to_le_bytes());
        r[2..4].copy_from_slice(&(p.len() as u16).to_le_bytes());
        r[4..8].copy_from_slice(&off.to_le_bytes());
        r[8..16].copy_from_slice(&ft.to_le_bytes());
        paths.extend_from_slice(&p);
    }
    [header, records, paths].concat()
}

/// Build a Windows 2003 64-bit blob: 8-byte header + 32-byte records + a trailing path region.
fn build_2003_64(entries: &[(&str, u64)]) -> Vec<u8> {
    let n = entries.len();
    let mut header = vec![0u8; 8];
    header[0..4].copy_from_slice(&SIG_WIN2003_VISTA.to_le_bytes());
    header[4..8].copy_from_slice(&(n as u32).to_le_bytes());
    let paths_start = 8 + n * 32;
    let mut records = vec![0u8; n * 32];
    let mut paths = Vec::new();
    for (i, (path, ft)) in entries.iter().enumerate() {
        let p = utf16(path);
        let off = (paths_start + paths.len()) as u64;
        let r = &mut records[i * 32..i * 32 + 32];
        r[0..2].copy_from_slice(&(p.len() as u16).to_le_bytes());
        r[2..4].copy_from_slice(&(p.len() as u16).to_le_bytes());
        r[8..16].copy_from_slice(&off.to_le_bytes());
        r[16..24].copy_from_slice(&ft.to_le_bytes());
        paths.extend_from_slice(&p);
    }
    [header, records, paths].concat()
}

/// Build a valid Windows 7 64-bit blob (128-byte header, 48-byte records + path region).
fn build_win7_64(entries: &[(&str, u64, bool)]) -> Vec<u8> {
    let n = entries.len();
    let mut header = vec![0u8; 128];
    header[0..4].copy_from_slice(&SIG_WIN7.to_le_bytes());
    header[4..8].copy_from_slice(&(n as u32).to_le_bytes());
    let paths_start = 128 + n * 48;
    let mut records = vec![0u8; n * 48];
    let mut paths = Vec::new();
    for (i, (path, ft, exec)) in entries.iter().enumerate() {
        let p = utf16(path);
        let off = (paths_start + paths.len()) as u64;
        let r = &mut records[i * 48..i * 48 + 48];
        r[0..2].copy_from_slice(&(p.len() as u16).to_le_bytes());
        r[2..4].copy_from_slice(&(p.len() as u16).to_le_bytes());
        r[8..16].copy_from_slice(&off.to_le_bytes());
        r[16..24].copy_from_slice(&ft.to_le_bytes());
        r[24..28].copy_from_slice(&(if *exec { 2u32 } else { 0 }).to_le_bytes());
        paths.extend_from_slice(&p);
    }
    [header, records, paths].concat()
}

/// A Windows 7 64-bit blob with one entry whose `path_offset` is set explicitly.
fn build_win7_64_one(path_size: u16, path_offset: u64) -> Vec<u8> {
    let mut blob = vec![0u8; 128 + 48];
    blob[0..4].copy_from_slice(&SIG_WIN7.to_le_bytes());
    blob[4..8].copy_from_slice(&1u32.to_le_bytes());
    let r = &mut blob[128..176];
    r[0..2].copy_from_slice(&path_size.to_le_bytes());
    r[8..16].copy_from_slice(&path_offset.to_le_bytes());
    blob
}

#[test]
fn win7_32bit_roundtrip() {
    let blob = build_win7_32(&[
        (
            "\\??\\C:\\Windows\\system32\\evil.exe",
            131_000_000_000_000_000,
            true,
        ),
        ("C:\\tool.dll", 130_000_000_000_000_000, false),
    ]);
    assert_eq!(detect_format(&blob), Some(ShimcacheFormat::Win7_32));
    let e = parse(&blob).unwrap();
    assert_eq!(e.len(), 2);
    assert_eq!(e[0].path, "C:\\Windows\\system32\\evil.exe");
    assert_eq!(e[0].last_modified_filetime, 131_000_000_000_000_000);
    assert_eq!(e[0].executed, Some(true));
    assert_eq!(e[1].path, "C:\\tool.dll");
    assert_eq!(e[1].executed, Some(false));
}

#[test]
fn win8_0_inline_entries() {
    let blob = build_modern(SIG_WIN8, *ENTRY_SIG_8_0, &[("C:\\a.exe", 42, Some(true))], false, false);
    assert_eq!(detect_format(&blob), Some(ShimcacheFormat::Win8_0));
    let e = parse(&blob).unwrap();
    assert_eq!(e.len(), 1);
    assert_eq!(e[0].path, "C:\\a.exe");
    assert_eq!(e[0].last_modified_filetime, 42);
    assert_eq!(e[0].executed, Some(true));
}

#[test]
fn win8_1_has_the_extra_unknown_field() {
    let blob = build_modern(SIG_WIN8, *ENTRY_SIG_8_1, &[("C:\\b.exe", 99, Some(false))], true, false);
    assert_eq!(detect_format(&blob), Some(ShimcacheFormat::Win8_1));
    let e = parse(&blob).unwrap();
    assert_eq!(e[0].path, "C:\\b.exe");
    assert_eq!(e[0].last_modified_filetime, 99);
    assert_eq!(e[0].executed, Some(false));
}

#[test]
fn win10_has_no_exec_flag() {
    let blob = build_modern(SIG_WIN10_CREATORS, *ENTRY_SIG_8_1, &[("C:\\c.exe", 7, None)], false, true);
    assert_eq!(detect_format(&blob), Some(ShimcacheFormat::Win10));
    let e = parse(&blob).unwrap();
    assert_eq!(e[0].path, "C:\\c.exe");
    assert_eq!(e[0].last_modified_filetime, 7);
    assert_eq!(e[0].executed, None);
}

#[test]
fn win10_pre_creators_0x30_header() {
    let blob = build_modern(SIG_WIN10, *ENTRY_SIG_8_1, &[("C:\\d.exe", 5, None)], false, true);
    assert_eq!(detect_format(&blob), Some(ShimcacheFormat::Win10));
    assert_eq!(parse(&blob).unwrap()[0].path, "C:\\d.exe");
}

#[test]
fn unknown_signature_names_the_value() {
    let blob = 0x1234_5678u32.to_le_bytes().to_vec();
    match parse(&blob) {
        Err(ShimcacheError::UnknownSignature { signature }) => assert_eq!(signature, 0x1234_5678),
        other => panic!("expected UnknownSignature, got {other:?}"),
    }
    assert_eq!(detect_format(&blob), None);
}

#[test]
fn winxp_inline_path_entries() {
    let blob = build_xp(&[(r"\??\C:\WINDOWS\system32\evil.exe", 131_000_000_000_000_000)]);
    assert_eq!(detect_format(&blob), Some(ShimcacheFormat::WinXp));
    let e = parse(&blob).unwrap();
    assert_eq!(e.len(), 1);
    assert_eq!(e[0].path, r"C:\WINDOWS\system32\evil.exe");
    assert_eq!(e[0].last_modified_filetime, 131_000_000_000_000_000);
    assert_eq!(e[0].executed, None);
}

#[test]
fn win2003_32bit_path_offset_entries() {
    let blob = build_2003_32(&[(r"C:\a.exe", 42), (r"C:\b.dll", 99)]);
    assert_eq!(detect_format(&blob), Some(ShimcacheFormat::Win2003_32));
    let e = parse(&blob).unwrap();
    assert_eq!(e.len(), 2);
    assert_eq!(e[0].path, r"C:\a.exe");
    assert_eq!(e[0].last_modified_filetime, 42);
    assert_eq!(e[1].path, r"C:\b.dll");
    assert_eq!(e[0].executed, None);
}

#[test]
fn win2003_64bit_entries() {
    let blob = build_2003_64(&[(r"C:\x.exe", 7)]);
    assert_eq!(detect_format(&blob), Some(ShimcacheFormat::Win2003_64));
    let e = parse(&blob).unwrap();
    assert_eq!(e.len(), 1);
    assert_eq!(e[0].path, r"C:\x.exe");
    assert_eq!(e[0].last_modified_filetime, 7);
    assert_eq!(e[0].executed, None);
}

#[test]
fn xp_truncated_and_empty_entries_skip_cleanly() {
    let mut blob = vec![0u8; 402];
    blob[0..4].copy_from_slice(&SIG_WINXP.to_le_bytes());
    blob[4..8].copy_from_slice(&3u32.to_le_bytes());
    assert!(parse(&blob).unwrap().is_empty());
    assert!(parse(&build_xp(&[("", 1)])).unwrap().is_empty());
}

#[test]
fn win2003_truncated_entries_skip_cleanly() {
    let mut blob = vec![0u8; 10];
    blob[0..4].copy_from_slice(&SIG_WIN2003_VISTA.to_le_bytes());
    blob[4..8].copy_from_slice(&5u32.to_le_bytes());
    assert!(parse(&blob).unwrap().is_empty());
    let mut b = vec![0u8; 8 + 24];
    b[0..4].copy_from_slice(&SIG_WIN2003_VISTA.to_le_bytes());
    b[4..8].copy_from_slice(&1u32.to_le_bytes());
    b[8..10].copy_from_slice(&10u16.to_le_bytes());
    b[12..16].copy_from_slice(&99_999u32.to_le_bytes());
    assert!(parse(&b).unwrap().is_empty());
}

#[test]
fn win7_64bit_roundtrip() {
    let blob = build_win7_64(&[(r"C:\Windows\System32\svchost.exe", 130_000_000_000_000_000, true)]);
    assert_eq!(detect_format(&blob), Some(ShimcacheFormat::Win7_64));
    let e = parse(&blob).unwrap();
    assert_eq!(e.len(), 1);
    assert_eq!(e[0].path, r"C:\Windows\System32\svchost.exe");
    assert_eq!(e[0].last_modified_filetime, 130_000_000_000_000_000);
    assert_eq!(e[0].executed, Some(true));
}

#[test]
fn too_short_blob_errors() {
    assert_eq!(parse(&[0u8; 2]), Err(ShimcacheError::TooShort { len: 2 }));
    assert_eq!(detect_format(&[0u8; 3]), None);
}

#[test]
fn truncated_entry_is_skipped_never_panics() {
    let mut blob = vec![0u8; 130];
    blob[0..4].copy_from_slice(&SIG_WIN7.to_le_bytes());
    blob[4..8].copy_from_slice(&5u32.to_le_bytes());
    let _ = parse(&blob);
}

#[test]
fn win8_stops_at_a_bad_entry_signature() {
    let mut blob = vec![0u8; 200];
    blob[0..4].copy_from_slice(&SIG_WIN8.to_le_bytes());
    blob[128..132].copy_from_slice(b"junk");
    assert_eq!(detect_format(&blob), None);
    assert!(matches!(parse(&blob), Err(ShimcacheError::UnknownSignature { .. })));
}

#[test]
fn empty_utf16_and_non_ascii_paths_decode() {
    let blob = build_win7_32(&[("C:\\Ünïcödé\\日本語.exe", 1, true)]);
    let e = parse(&blob).unwrap();
    assert_eq!(e[0].path, "C:\\Ünïcödé\\日本語.exe");
}

#[test]
fn win7_entry_with_out_of_bounds_path_offset_is_skipped() {
    let blob = build_win7_64_one(10, 9_999_999);
    assert_eq!(detect_format(&blob), Some(ShimcacheFormat::Win7_64));
    assert!(parse(&blob).unwrap().is_empty());
}

#[test]
fn win8_truncations_break_cleanly() {
    let mut base = vec![0u8; 132];
    base[0..4].copy_from_slice(&SIG_WIN8.to_le_bytes());
    base[128..132].copy_from_slice(ENTRY_SIG_8_0);
    assert!(parse(&base).unwrap().is_empty());
    let mut b = base.clone();
    b.extend_from_slice(&[0u8; 8]);
    assert!(parse(&b).unwrap().is_empty());
    let mut c = base.clone();
    c.extend_from_slice(&0u32.to_le_bytes());
    c.extend_from_slice(&99u32.to_le_bytes());
    c.extend_from_slice(&200u16.to_le_bytes());
    assert!(parse(&c).unwrap().is_empty());
}

#[test]
fn win10_truncations_break_cleanly() {
    let mut base = vec![0u8; SIG_WIN10_CREATORS as usize];
    base[0..4].copy_from_slice(&SIG_WIN10_CREATORS.to_le_bytes());
    base.extend_from_slice(ENTRY_SIG_8_1);
    assert!(parse(&base).unwrap().is_empty());
    let mut b = base.clone();
    b.extend_from_slice(&[0u8; 8]);
    assert!(parse(&b).unwrap().is_empty());
    let mut c = base.clone();
    c.extend_from_slice(&0u32.to_le_bytes());
    c.extend_from_slice(&99u32.to_le_bytes());
    c.extend_from_slice(&200u16.to_le_bytes());
    assert!(parse(&c).unwrap().is_empty());
}

#[test]
fn error_display_messages_show_the_offending_value() {
    assert!(ShimcacheError::TooShort { len: 3 }.to_string().contains('3'));
    assert!(ShimcacheError::UnknownSignature { signature: 0xabad_1dea }
        .to_string()
        .contains("abad1dea"));
}

#[test]
fn win8_entry_variant_none_on_short_blob() {
    let mut blob = SIG_WIN8.to_le_bytes().to_vec();
    blob.resize(100, 0);
    assert_eq!(detect_format(&blob), None);
}

// ── Further cases: edge layouts, the decoding rules and the error text ─────────────────────

#[test]
fn error_messages_are_exact() {
    assert_eq!(
        ShimcacheError::TooShort { len: 3 }.to_string(),
        "AppCompatCache blob too short: 3 bytes"
    );
    assert_eq!(
        ShimcacheError::TooShort { len: 1024 }.to_string(),
        "AppCompatCache blob too short: 1024 bytes"
    );
    assert_eq!(
        ShimcacheError::UnknownSignature { signature: 0x1f }.to_string(),
        "unknown AppCompatCache signature 0x0000001f"
    );
    assert_eq!(
        ShimcacheError::UnknownSignature { signature: 0xabad_1dea }.to_string(),
        "unknown AppCompatCache signature 0xabad1dea"
    );
}

#[test]
fn empty_blob_is_too_short() {
    assert_eq!(parse(&[]), Err(ShimcacheError::TooShort { len: 0 }));
    assert_eq!(parse(&[0u8; 3]), Err(ShimcacheError::TooShort { len: 3 }));
}

#[test]
fn decodes_exactly_when_detected() {
    // Windows 8 header with no entry signature: neither decodes nor detects.
    let mut junk = vec![0u8; 200];
    junk[0..4].copy_from_slice(&SIG_WIN8.to_le_bytes());
    assert!(parse(&junk).is_err());
    assert_eq!(detect_format(&junk), None);
    // A header-only Windows 10 blob detects and decodes to no entries.
    let empty10 = build_modern(SIG_WIN10, *ENTRY_SIG_8_1, &[], false, true);
    assert_eq!(detect_format(&empty10), Some(ShimcacheFormat::Win10));
    assert_eq!(parse(&empty10).unwrap().len(), 0);
}

#[test]
fn device_prefix_is_stripped_once() {
    let blob = build_modern(SIG_WIN8, *ENTRY_SIG_8_1, &[(r"\??\\??\C:\x.exe", 1, Some(true))], true, false);
    assert_eq!(parse(&blob).unwrap()[0].path, r"\??\C:\x.exe");
    let blob = build_modern(SIG_WIN8, *ENTRY_SIG_8_1, &[(r"\??", 1, Some(true))], true, false);
    assert_eq!(parse(&blob).unwrap()[0].path, r"\??");
}

#[test]
fn lone_surrogates_become_replacement_characters() {
    // A path of units: 'C', an unpaired high surrogate, 'D', then a valid surrogate pair.
    let units: [u16; 5] = [0x43, 0xD800, 0x44, 0xD83D, 0xDE00];
    let bytes: Vec<u8> = units.iter().flat_map(|u| u.to_le_bytes()).collect();
    let mut blob = vec![0u8; 0x30];
    blob[0..4].copy_from_slice(&SIG_WIN10.to_le_bytes());
    let mut body = Vec::new();
    body.extend_from_slice(&(bytes.len() as u16).to_le_bytes());
    body.extend_from_slice(&bytes);
    body.extend_from_slice(&3u64.to_le_bytes());
    blob.extend_from_slice(ENTRY_SIG_8_1);
    blob.extend_from_slice(&0u32.to_le_bytes());
    blob.extend_from_slice(&(body.len() as u32).to_le_bytes());
    blob.extend_from_slice(&body);
    let e = parse(&blob).unwrap();
    assert_eq!(e[0].path, "C\u{FFFD}D\u{1F600}");
    assert_eq!(e[0].last_modified_filetime, 3);
}

#[test]
fn xp_path_stops_at_the_first_nul() {
    let mut blob = build_xp(&[(r"C:\a.exe", 9)]);
    // Garbage after the terminating NUL of the first path.
    let tail = utf16("junk");
    let start = 400 + utf16(r"C:\a.exe").len() + 2;
    blob[start..start + tail.len()].copy_from_slice(&tail);
    let e = parse(&blob).unwrap();
    assert_eq!(e[0].path, r"C:\a.exe");
    assert_eq!(e[0].last_modified_filetime, 9);
}

#[test]
fn xp_entry_needs_its_filetime() {
    // Room for the 528-byte path but not for the FILETIME: the walk ends.
    let mut blob = build_xp(&[(r"C:\a.exe", 9)]);
    blob.truncate(400 + 530);
    assert!(parse(&blob).unwrap().is_empty());
}

#[test]
fn fixed_records_never_exceed_the_header_count() {
    let mut blob = build_win7_64(&[(r"C:\a.exe", 1, true), (r"C:\b.exe", 2, false)]);
    // The header now claims a single entry although two records are present.
    blob[4..8].copy_from_slice(&1u32.to_le_bytes());
    let e = parse(&blob).unwrap();
    assert_eq!(e.len(), 1);
    assert_eq!(e[0].path, r"C:\a.exe");
}

#[test]
fn win7_32bit_chosen_only_when_it_alone_validates() {
    let blob = build_win7_32(&[(r"C:\a.exe", 1, true)]);
    assert_eq!(detect_format(&blob), Some(ShimcacheFormat::Win7_32));
    // No records at all: neither layout validates and 64-bit is assumed.
    let mut empty = vec![0u8; 128];
    empty[0..4].copy_from_slice(&SIG_WIN7.to_le_bytes());
    assert_eq!(detect_format(&empty), Some(ShimcacheFormat::Win7_64));
    assert_eq!(parse(&empty).unwrap().len(), 0);
}

#[test]
fn odd_path_offset_is_not_plausible_for_64bit() {
    let mut blob = build_2003_64(&[(r"C:\x.exe", 7)]);
    // Move the path one byte later so the 64-bit path_offset is odd.
    let off = u64::from_le_bytes(blob[16..24].try_into().unwrap()) + 1;
    blob[16..24].copy_from_slice(&off.to_le_bytes());
    blob.push(0);
    assert_eq!(detect_format(&blob), Some(ShimcacheFormat::Win2003_32));
}

#[test]
fn win8_walks_several_entries_in_order() {
    let blob = build_modern(
        SIG_WIN8,
        *ENTRY_SIG_8_0,
        &[("C:\\one.exe", 1, Some(true)), ("C:\\two.exe", 2, Some(false)), ("C:\\three.exe", 3, None)],
        false,
        false,
    );
    let e = parse(&blob).unwrap();
    assert_eq!(e.len(), 3);
    assert_eq!(e[0].path, "C:\\one.exe");
    assert_eq!(e[1].path, "C:\\two.exe");
    assert_eq!(e[2].path, "C:\\three.exe");
    assert_eq!(e[2].last_modified_filetime, 3);
    assert_eq!(e[1].executed, Some(false));
    assert_eq!(e[2].executed, Some(false));
    assert!(e.iter().all(|x| x.executed.is_some()));
}

#[test]
fn win8_missing_filetime_reads_as_zero() {
    // The record ends right after the path: flags and FILETIME are absent, so both read as 0.
    let mut blob = vec![0u8; 128];
    blob[0..4].copy_from_slice(&SIG_WIN8.to_le_bytes());
    let p = utf16("C:\\z.exe");
    blob.extend_from_slice(ENTRY_SIG_8_1);
    blob.extend_from_slice(&0u32.to_le_bytes());
    blob.extend_from_slice(&((p.len() + 2) as u32).to_le_bytes());
    blob.extend_from_slice(&(p.len() as u16).to_le_bytes());
    blob.extend_from_slice(&p);
    let e = parse(&blob).unwrap();
    assert_eq!(e.len(), 1);
    assert_eq!(e[0].path, "C:\\z.exe");
    assert_eq!(e[0].last_modified_filetime, 0);
    assert_eq!(e[0].executed, Some(false));
}
