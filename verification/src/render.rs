//! The text report: a one-line format/control-set/count summary, the graded findings and, on
//! request, every cache entry with its last-modification time and execution state.

use vstd::prelude::*;
use crate::audit::{anomalies_model, AnomalyModel};
use crate::message::{append_decimal, decimal};
use crate::model::{entries_model, EntryModel, ShimcacheFormat};
use crate::report::{anomaly_code, anomaly_note, anomaly_path, anomaly_severity_label, subject_path, ShimcacheReport};

verus! {

/// What `winreg_core::key::filetime_to_datetime` followed by `jiff`'s `Timestamp` display gives
/// for a `FILETIME`: its UTC date and time as text, or `None`.
pub uninterp spec fn filetime_text(ft: u64) -> Option<Seq<char>>;

/// `winreg_core::key::filetime_to_datetime`, rendered with the `Display` of the
/// `jiff::Timestamp` it returns (an RFC 3339 UTC timestamp, the same on every machine). Per its
/// source it returns `None` for a zero `FILETIME` and for one before the Unix epoch
/// (116444736000000000 ticks), and for one beyond `Timestamp`'s range; the text itself is named,
/// not restated.
#[verifier::external_body]
fn filetime_display(ft: u64) -> (r: Option<String>)
    ensures
        match r {
            Some(s) => filetime_text(ft) == Some(s@),
            None => filetime_text(ft) is None,
        },
        ft == 0 || ft < 116_444_736_000_000_000u64 ==> r is None,
{
    match winreg_core::key::filetime_to_datetime(ft) {
        Some(t) => Some(t.to_string()),
        None => None,
    }
}

/// The name a format is reported under.
pub open spec fn format_name(f: ShimcacheFormat) -> Seq<char> {
    match f {
        ShimcacheFormat::WinXp => "WinXp"@,
        ShimcacheFormat::Win2003_32 => "Win2003_32"@,
        ShimcacheFormat::Win2003_64 => "Win2003_64"@,
        ShimcacheFormat::Win7_32 => "Win7_32"@,
        ShimcacheFormat::Win7_64 => "Win7_64"@,
        ShimcacheFormat::Win8_0 => "Win8_0"@,
        ShimcacheFormat::Win8_1 => "Win8_1"@,
        ShimcacheFormat::Win10 => "Win10"@,
    }
}

/// The name a format is reported under (`Win7_64`, `Win10`, ...).
pub fn format_label(f: ShimcacheFormat) -> (r: &'static str)
    ensures
        r@ == format_name(f),
{
    match f {
        ShimcacheFormat::WinXp => "WinXp",
        ShimcacheFormat::Win2003_32 => "Win2003_32",
        ShimcacheFormat::Win2003_64 => "Win2003_64",
        ShimcacheFormat::Win7_32 => "Win7_32",
        ShimcacheFormat::Win7_64 => "Win7_64",
        ShimcacheFormat::Win8_0 => "Win8_0",
        ShimcacheFormat::Win8_1 => "Win8_1",
        ShimcacheFormat::Win10 => "Win10",
    }
}

/// `AppCompatCache: <format>, <control set>, <n> entries`.
pub open spec fn summary_line(f: ShimcacheFormat, control_set: Seq<char>, n: nat) -> Seq<char> {
    "AppCompatCache: "@ + format_name(f) + ", "@ + control_set + ", "@ + decimal(n) + " entries\n"@
}

/// `  [<SEVERITY>] <code>  <path>` then the indented note.
pub open spec fn finding_lines(a: AnomalyModel) -> Seq<char> {
    "  ["@ + anomaly_severity_label(a) + "] "@ + anomaly_code(a) + "  "@ + anomaly_path(a) + "\n    "@
        + anomaly_note(a) + "\n"@
}

pub open spec fn findings_text(anoms: Seq<AnomalyModel>) -> Seq<char>
    decreases anoms.len(),
{
    if anoms.len() == 0 {
        Seq::empty()
    } else {
        findings_text(anoms.drop_last()) + finding_lines(anoms.last())
    }
}

/// `Findings: none`, or `Findings (<k>):` followed by each finding.
pub open spec fn findings_block(anoms: Seq<AnomalyModel>) -> Seq<char> {
    if anoms.len() == 0 {
        "Findings: none\n"@
    } else {
        "Findings ("@ + decimal(anoms.len()) + "):\n"@ + findings_text(anoms)
    }
}

/// An entry's time: the rendered `FILETIME`, or `-` when it has none.
pub open spec fn time_text(ft: u64) -> Seq<char> {
    match filetime_text(ft) {
        Some(t) => t,
        None => "-"@,
    }
}

/// An entry's execution state, left-aligned in 8 columns.
pub open spec fn execution_label(executed: Option<bool>) -> Seq<char> {
    match executed {
        Some(true) => "executed"@,
        Some(false) => "present "@,
        None => "-       "@,
    }
}

/// `  <time>  <state>  <path>`.
pub open spec fn entry_line(e: EntryModel) -> Seq<char> {
    "  "@ + time_text(e.last_modified_filetime) + "  "@ + execution_label(e.executed) + "  "@ + e.path
        + "\n"@
}

/// An entry's listed line starts with its `FILETIME` rendered as text (`-` where the
/// `FILETIME` has no rendering), whatever the entry's execution flag, then its execution
/// state and its path.
pub proof fn law_entry_line_shows_filetime(e: EntryModel)
    ensures
        filetime_text(e.last_modified_filetime) matches Some(t) ==> entry_line(e)
            == "  "@ + t + "  "@ + execution_label(e.executed) + "  "@ + e.path + "\n"@,
        filetime_text(e.last_modified_filetime) is None ==> entry_line(e)
            == "  -  "@ + execution_label(e.executed) + "  "@ + e.path + "\n"@,
{
    assert(("  "@ + "-"@ + "  "@) =~= "  -  "@) by {
        reveal_strlit("  ");
        reveal_strlit("-");
        reveal_strlit("  -  ");
    }
    if filetime_text(e.last_modified_filetime) is None {
        assert(entry_line(e) =~= "  -  "@ + execution_label(e.executed) + "  "@ + e.path + "\n"@);
    }
}

/// Two entries with the same `FILETIME` are listed with the same time, whatever their
/// execution flags and paths: their lines agree up to the time and the two spaces after it.
pub proof fn law_listed_time_depends_on_filetime_only(a: EntryModel, b: EntryModel)
    requires
        a.last_modified_filetime == b.last_modified_filetime,
    ensures
        ({
            let k = 4 + match filetime_text(a.last_modified_filetime) {
                Some(t) => t.len() as int,
                None => 1,
            };
            entry_line(a).take(k) == entry_line(b).take(k)
        }),
{
    let t = time_text(a.last_modified_filetime);
    let k: int = 4 + t.len() as int;
    let pre = "  "@ + t + "  "@;
    assert(pre.len() == k) by {
        reveal_strlit("  ");
    }
    assert(entry_line(a) =~= pre + (execution_label(a.executed) + "  "@ + a.path + "\n"@));
    assert(entry_line(b) =~= pre + (execution_label(b.executed) + "  "@ + b.path + "\n"@));
    assert(entry_line(a).take(k) =~= pre);
    assert(entry_line(b).take(k) =~= pre);
    assert(t.len() == match filetime_text(a.last_modified_filetime) {
        Some(t) => t.len() as int,
        None => 1,
    }) by {
        reveal_strlit("-");
    }
}

pub open spec fn entry_lines(es: Seq<EntryModel>) -> Seq<char>
    decreases es.len(),
{
    if es.len() == 0 {
        Seq::empty()
    } else {
        entry_lines(es.drop_last()) + entry_line(es.last())
    }
}

/// The whole report text: the summary, the findings and, when `list` is set, a blank line, an
/// `Entries (most-recent first):` heading and one line per entry. Every line ends in `\n`.
pub open spec fn spec_render(
    f: ShimcacheFormat,
    control_set: Seq<char>,
    es: Seq<EntryModel>,
    anoms: Seq<AnomalyModel>,
    list: bool,
) -> Seq<char> {
    summary_line(f, control_set, es.len()) + findings_block(anoms) + if list {
        "\nEntries (most-recent first):\n"@ + entry_lines(es)
    } else {
        Seq::empty()
    }
}

fn execution_text(executed: Option<bool>) -> (r: &'static str)
    ensures
        r@ == execution_label(executed),
{
    match executed {
        Some(true) => "executed",
        Some(false) => "present ",
        None => "-       ",
    }
}

/// Render a report as text (the summary, the findings and, with `list`, every entry).
pub fn render_report(report: &ShimcacheReport, list: bool) -> (out: String)
    ensures
        out@ == spec_render(
            report.format,
            report.control_set@,
            entries_model(report.entries@),
            anomalies_model(report.anomalies@),
            list,
        ),
{
    let ghost am = anomalies_model(report.anomalies@);
    let ghost em = entries_model(report.entries@);
    let mut out = String::from_str("AppCompatCache: ");
    out.append(format_label(report.format));
    out.append(", ");
    out.append(report.control_set.as_str());
    out.append(", ");
    append_decimal(&mut out, report.entries.len());
    out.append(" entries\n");
    let ghost summary = out@;
    assert(summary == summary_line(report.format, report.control_set@, em.len()));
    let n = report.anomalies.len();
    if n == 0 {
        out.append("Findings: none\n");
    } else {
        out.append("Findings (");
        append_decimal(&mut out, n);
        out.append("):\n");
        let ghost head = out@;
        let mut i: usize = 0;
        proof {
            assert(am.take(0) =~= Seq::<AnomalyModel>::empty());
            assert(out@ =~= head + findings_text(am.take(0)));
        }
        while i < n
            invariant
                n == report.anomalies.len(),
                am == anomalies_model(report.anomalies@),
                i <= n,
                out@ == head + findings_text(am.take(i as int)),
            decreases n - i,
        {
            let a = &report.anomalies[i];
            let ghost before = out@;
            out.append("  [");
            out.append(a.severity_label());
            out.append("] ");
            out.append(a.code());
            out.append("  ");
            out.append(subject_path(a));
            out.append("\n    ");
            let note = a.note();
            out.append(note.as_str());
            out.append("\n");
            proof {
                assert(am[i as int] == a@);
                assert(am.take(i + 1).drop_last() =~= am.take(i as int));
                assert(am.take(i + 1).last() == am[i as int]);
                assert(findings_text(am.take(i + 1)) == findings_text(am.take(i as int)) + finding_lines(a@));
                assert(out@ =~= before + finding_lines(a@));
                assert(out@ =~= head + findings_text(am.take(i + 1)));
            }
            i = i + 1;
        }
        proof {
            assert(am.take(n as int) =~= am);
        }
    }
    assert(out@ =~= summary + findings_block(am));
    let ghost mid = out@;
    if list {
        out.append("\nEntries (most-recent first):\n");
        let ghost head = out@;
        let m = report.entries.len();
        let mut j: usize = 0;
        proof {
            assert(em.take(0) =~= Seq::<EntryModel>::empty());
            assert(out@ =~= head + entry_lines(em.take(0)));
        }
        while j < m
            invariant
                m == report.entries.len(),
                em == entries_model(report.entries@),
                j <= m,
                out@ == head + entry_lines(em.take(j as int)),
            decreases m - j,
        {
            let e = &report.entries[j];
            let ghost before = out@;
            out.append("  ");
            match filetime_display(e.last_modified_filetime) {
                Some(t) => out.append(t.as_str()),
                None => out.append("-"),
            }
            out.append("  ");
            out.append(execution_text(e.executed));
            out.append("  ");
            out.append(e.path.as_str());
            out.append("\n");
            proof {
                assert(em[j as int] == e@);
                assert(em.take(j + 1).drop_last() =~= em.take(j as int));
                assert(em.take(j + 1).last() == em[j as int]);
                assert(entry_lines(em.take(j + 1)) == entry_lines(em.take(j as int)) + entry_line(e@));
                assert(out@ =~= before + entry_line(e@));
                assert(out@ =~= head + entry_lines(em.take(j + 1)));
            }
            j = j + 1;
        }
        proof {
            assert(em.take(m as int) =~= em);
            assert(out@ =~= mid + ("\nEntries (most-recent first):\n"@ + entry_lines(em)));
        }
    } else {
        assert(out@ =~= mid + Seq::<char>::empty());
    }
    out
}

} // verus!
