//! Finding the AppCompatCache value in a `SYSTEM` hive: the control sets are tried in the
//! standard forensic order, and the first non-empty value is decoded and audited.
//!
//! Reading a value out of the hive is the caller's `lookup`, which is given a key path and
//! answers `Ok(Some(data))`, `Ok(None)` when the key or the value is absent, or `Err(text)`.
//! The search decides which control set is used from those answers.

use vstd::prelude::*;
use crate::report::{analyze_blob, ShimcacheReport};
use crate::parse::spec_parse;
use crate::detect::spec_detect_format;
use crate::audit::{anomalies_model, spec_audit};
use crate::model::entries_model;
use crate::message::error_message;

verus! {

/// The name of the registry value that holds the cache, under the key `lookup` is asked for.
pub const APPCOMPAT_VALUE: &'static str = "AppCompatCache";

/// Where the AppCompatCache value lives within a control set.
pub open spec fn appcompat_key_path(control_set: Seq<char>) -> Seq<char> {
    control_set + "\\Control\\Session Manager\\AppCompatCache"@
}

/// The message when no control set holds the value.
pub open spec fn not_found_message() -> Seq<char> {
    "no AppCompatCache value found (checked ControlSet001/002 Session Manager)"@
}

/// What one lookup answer means for the search: `Some(Ok(data))` for a non-empty value,
/// `Some(Err(text))` for a read error, `None` to move on to the next control set.
pub open spec fn probe_outcome(answer: Result<Option<Vec<u8>>, String>) -> Option<Result<Seq<u8>, Seq<char>>> {
    match answer {
        Err(m) => Some(Err(m@)),
        Ok(Some(b)) => if b@.len() > 0 {
            Some(Ok(b@))
        } else {
            None
        },
        Ok(None) => None,
    }
}

/// The search's result once a control set has decided it.
pub open spec fn decided(control_set: Seq<char>, outcome: Result<Seq<u8>, Seq<char>>) -> Result<(Seq<char>, Seq<u8>), Seq<char>> {
    match outcome {
        Ok(b) => Ok((control_set, b)),
        Err(m) => Err(m),
    }
}

/// The search's result from the answers for `ControlSet001` and (when the first does not
/// decide) `ControlSet002`.
pub open spec fn select(first: Option<Result<Seq<u8>, Seq<char>>>, second: Option<Result<Seq<u8>, Seq<char>>>) -> Result<(Seq<char>, Seq<u8>), Seq<char>> {
    match first {
        Some(o) => decided("ControlSet001"@, o),
        None => match second {
            Some(o) => decided("ControlSet002"@, o),
            None => Err(not_found_message()),
        },
    }
}

/// The model of the search's result.
pub open spec fn selection_view(r: Result<(String, Vec<u8>), String>) -> Result<(Seq<char>, Seq<u8>), Seq<char>> {
    match r {
        Ok((cs, b)) => Ok((cs@, b@)),
        Err(e) => Err(e@),
    }
}

/// Whether `s` is what the search yields from answers `lookup` may give: the answer for
/// `ControlSet001`'s key path, and, only when that one does not decide, the answer for
/// `ControlSet002`'s.
pub open spec fn selected_by<F: Fn(&str) -> Result<Option<Vec<u8>>, String>>(
    lookup: F,
    s: Result<(Seq<char>, Seq<u8>), Seq<char>>,
) -> bool {
    exists|o1: Option<Result<Seq<u8>, Seq<char>>>| {
        &&& probed(lookup, "ControlSet001"@, o1)
        &&& match o1 {
            Some(o) => s == decided("ControlSet001"@, o),
            None => exists|o2: Option<Result<Seq<u8>, Seq<char>>>|
                probed(lookup, "ControlSet002"@, o2) && s == select(None, o2),
        }
    }
}

/// The key path of the AppCompatCache value within a control set.
pub fn appcompat_key(control_set: &str) -> (r: String)
    ensures
        r@ == appcompat_key_path(control_set@),
{
    let mut key_path = String::from_str(control_set);
    key_path.append("\\Control\\Session Manager\\AppCompatCache");
    key_path
}

/// Whether `out` is what the search makes of an answer `lookup` may give for `control_set`.
pub open spec fn probed<F: Fn(&str) -> Result<Option<Vec<u8>>, String>>(
    lookup: F,
    control_set: Seq<char>,
    out: Option<Result<Seq<u8>, Seq<char>>>,
) -> bool {
    exists|p: &str, a: Result<Option<Vec<u8>>, String>| {
        &&& p@ == appcompat_key_path(control_set)
        &&& call_ensures(lookup, (p,), a)
        &&& out == probe_outcome(a)
    }
}

/// The model of a probe's result.
pub open spec fn outcome_view(r: Option<Result<Vec<u8>, String>>) -> Option<Result<Seq<u8>, Seq<char>>> {
    match r {
        Some(Ok(b)) => Some(Ok(b@)),
        Some(Err(e)) => Some(Err(e@)),
        None => None,
    }
}

/// Ask `lookup` for one control set's value and say what the answer means for the search.
fn probe<F: Fn(&str) -> Result<Option<Vec<u8>>, String>>(lookup: &F, control_set: &str) -> (r: Option<Result<Vec<u8>, String>>)
    requires
        forall|p: &str| #[trigger] call_requires(*lookup, (p,)),
    ensures
        probed(*lookup, control_set@, outcome_view(r)),
{
    let key_path = appcompat_key(control_set);
    let answer = lookup(key_path.as_str());
    let ghost a = answer;
    let out = match answer {
        Err(e) => Some(Err(e)),
        Ok(Some(b)) => if b.len() > 0 {
            Some(Ok(b))
        } else {
            None
        },
        Ok(None) => None,
    };
    assert(outcome_view(out) == probe_outcome(a));
    out
}

/// Find the AppCompatCache value across the hive's control sets (`ControlSet001` then
/// `ControlSet002`, asking `lookup` for each key path in that order and stopping at the first
/// non-empty value or read error). Returns the control set's name and the raw value, or a
/// message.
pub fn appcompatcache_blob<F: Fn(&str) -> Result<Option<Vec<u8>>, String>>(lookup: F) -> (r: Result<(String, Vec<u8>), String>)
    requires
        forall|p: &str| #[trigger] call_requires(lookup, (p,)),
    ensures
        selected_by(lookup, selection_view(r)),
{
    let first = probe(&lookup, "ControlSet001");
    let ghost o1 = outcome_view(first);
    match first {
        Some(Ok(b)) => {
            let r = Ok((String::from_str("ControlSet001"), b));
            assert(selected_by(lookup, selection_view(r)));
            return r;
        },
        Some(Err(e)) => {
            let r = Err(e);
            assert(selected_by(lookup, selection_view(r)));
            return r;
        },
        None => {},
    }
    let second = probe(&lookup, "ControlSet002");
    let ghost o2 = outcome_view(second);

    let r = match second {
        Some(Ok(b)) => Ok((String::from_str("ControlSet002"), b)),
        Some(Err(e)) => Err(e),
        None => Err(String::from_str(
            "no AppCompatCache value found (checked ControlSet001/002 Session Manager)",
        )),
    };
    assert(o1 is None);
    assert(selection_view(r) == select(None, o2));
    assert(probed(lookup, "ControlSet002"@, o2));
    assert(probed(lookup, "ControlSet001"@, o1));
    assert(selected_by(lookup, selection_view(r)));
    r
}

/// What analyzing the value the search found gives: the search's message, the decode error's
/// text, or the report of the decoded and audited value under the chosen control set.
pub open spec fn analyzed_from(s: Result<(Seq<char>, Seq<u8>), Seq<char>>, r: Result<ShimcacheReport, String>) -> bool {
    match s {
        Err(m) => r matches Err(e) && e@ == m,
        Ok((cs, blob)) => match spec_parse(blob) {
            Err(err) => r matches Err(e) && e@ == error_message(err),
            Ok(es) => r matches Ok(report) && {
                &&& report.control_set@ == cs
                &&& entries_model(report.entries@) == es
                &&& spec_detect_format(blob) == Some(report.format)
                &&& anomalies_model(report.anomalies@) == spec_audit(es)
            },
        },
    }
}

/// Find the AppCompatCache value through `lookup` and analyze it. Fails with the search's
/// message, or with the decode error's text.
pub fn analyze_hive<F: Fn(&str) -> Result<Option<Vec<u8>>, String>>(lookup: F) -> (r: Result<ShimcacheReport, String>)
    requires
        forall|p: &str| #[trigger] call_requires(lookup, (p,)),
    ensures
        exists|s: Result<(Seq<char>, Seq<u8>), Seq<char>>| selected_by(lookup, s) && analyzed_from(s, r),
{
    let found = appcompatcache_blob(lookup);
    let ghost s = selection_view(found);
    let r = match found {
        Err(e) => Err(e),
        Ok((control_set, blob)) => match analyze_blob(blob.as_slice(), control_set.as_str()) {
            Ok(report) => Ok(report),
            Err(e) => Err(e.to_string()),
        },
    };
    assert(analyzed_from(s, r));
    r
}

} // verus!
