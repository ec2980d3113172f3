//! UTF-16LE path fields: byte-to-unit assembly, lossy decoding and the `\??\` device prefix.

use vstd::prelude::*;
use crate::bytes::{fits, in_bounds, le16};

verus! {

pub open spec fn is_high_surrogate(u: u16) -> bool {
    0xD800 <= u <= 0xDBFF
}

pub open spec fn is_low_surrogate(u: u16) -> bool {
    0xDC00 <= u <= 0xDFFF
}

/// The character a surrogate pair stands for.
pub open spec fn pair_char(hi: u16, lo: u16) -> char {
    (0x10000 + (hi - 0xD800) * 0x400 + (lo - 0xDC00)) as char
}

/// Lossy UTF-16 decoding: a high surrogate followed by a low one is a supplementary
/// character, any other surrogate is replaced by U+FFFD, every other unit is its own
/// character.
pub open spec fn utf16_lossy(u: Seq<u16>) -> Seq<char>
    decreases u.len(),
{
    if u.len() == 0 {
        Seq::empty()
    } else if is_high_surrogate(u[0]) && u.len() >= 2 && is_low_surrogate(u[1]) {
        seq![pair_char(u[0], u[1])] + utf16_lossy(u.skip(2))
    } else if is_high_surrogate(u[0]) || is_low_surrogate(u[0]) {
        seq!['\u{FFFD}'] + utf16_lossy(u.skip(1))
    } else {
        seq![u[0] as char] + utf16_lossy(u.skip(1))
    }
}

/// The UTF-16LE code units of a byte string; a trailing odd byte is ignored.
pub open spec fn utf16_units(b: Seq<u8>) -> Seq<u16> {
    Seq::new(b.len() / 2, |k: int| le16(b[2 * k], b[2 * k + 1]))
}

/// The units before the first NUL unit (all of them when there is none).
pub open spec fn until_nul(u: Seq<u16>) -> Seq<u16>
    decreases u.len(),
{
    if u.len() == 0 || u[0] == 0 {
        Seq::empty()
    } else {
        seq![u[0]] + until_nul(u.skip(1))
    }
}

/// The NT device prefix `\??\` that cached paths may carry.
pub open spec fn device_prefix() -> Seq<char> {
    seq!['\\', '?', '?', '\\']
}

/// The path with one leading `\??\` removed, if it has one.
pub open spec fn strip_device_prefix(s: Seq<char>) -> Seq<char> {
    if s.len() >= 4 && s.take(4) == device_prefix() {
        s.skip(4)
    } else {
        s
    }
}

/// The decoded path stored in `size` bytes at `off`: the whole field, or (for NUL-padded
/// fixed fields) only the part before the first NUL unit, then without its device prefix.
/// `None` when the field lies outside the blob.
pub open spec fn spec_read_path(blob: Seq<u8>, off: int, size: int, nul_terminated: bool) -> Option<Seq<char>> {
    if in_bounds(blob, off, size) {
        let units = utf16_units(blob.subrange(off, off + size));
        let units = if nul_terminated { until_nul(units) } else { units };
        Some(strip_device_prefix(utf16_lossy(units)))
    } else {
        None
    }
}

/// `String::from_utf16_lossy` from std: per its documentation it decodes the UTF-16 units,
/// replacing invalid data (unpaired surrogates) with U+FFFD.
#[verifier::external_body]
fn string_from_utf16_lossy(units: &[u16]) -> (s: String)
    ensures
        s@ == utf16_lossy(units@),
{
    String::from_utf16_lossy(units)
}

/// Remove one leading `\??\` from a decoded path.
fn strip_prefix_string(s: String) -> (r: String)
    ensures
        r@ == strip_device_prefix(s@),
{
    let n = s.as_str().unicode_len();
    if n >= 4 && s.as_str().get_char(0) == '\\' && s.as_str().get_char(1) == '?'
        && s.as_str().get_char(2) == '?' && s.as_str().get_char(3) == '\\' {
        assert(s@.take(4) =~= device_prefix());
        let rest = s.as_str().substring_char(4, n);
        let r = rest.to_owned();
        assert(r@ =~= s@.skip(4));
        r
    } else {
        assert(!(s@.len() >= 4 && s@.take(4) == device_prefix())) by {
            if s@.len() >= 4 && s@.take(4) == device_prefix() {
                assert(s@.take(4)[0] == s@[0]);
                assert(s@.take(4)[1] == s@[1]);
                assert(s@.take(4)[2] == s@[2]);
                assert(s@.take(4)[3] == s@[3]);
            }
        }
        s
    }
}

/// The UTF-16 units of `size` bytes at `off`, stopping at the first NUL unit when asked.
fn collect_units(blob: &[u8], off: usize, size: usize, nul_terminated: bool) -> (r: Vec<u16>)
    requires
        in_bounds(blob@, off as int, size as int),
    ensures
        r@ == (if nul_terminated {
            until_nul(utf16_units(blob@.subrange(off as int, off + size)))
        } else {
            utf16_units(blob@.subrange(off as int, off + size))
        }),
{
    let ghost all = utf16_units(blob@.subrange(off as int, off + size));
    let n = size / 2;
    let mut units: Vec<u16> = Vec::new();
    let mut k: usize = 0;
    proof {
        assert(all.skip(0) =~= all);
        assert(units@ + until_nul(all) =~= until_nul(all));
        assert(units@ =~= all.take(0));
    }
    while k < n
        invariant
            n == size / 2,
            all.len() == n,
            all == utf16_units(blob@.subrange(off as int, off + size)),
            in_bounds(blob@, off as int, size as int),
            off + size <= blob.len(),
            k <= n,
            nul_terminated ==> until_nul(all) == units@ + until_nul(all.skip(k as int)),
            !nul_terminated ==> units@ == all.take(k as int),
        decreases n - k,
    {
        let lo = blob[off + 2 * k];
        let hi = blob[off + 2 * k + 1];
        let unit: u16 = lo as u16 + (hi as u16) * 256;
        assert(unit == all[k as int]);
        if nul_terminated && unit == 0 {
            proof {
                assert(until_nul(all.skip(k as int)) =~= Seq::<u16>::empty());
                assert(units@ =~= units@ + Seq::<u16>::empty());
            }
            return units;
        }
        proof {
            if nul_terminated {
                let rest = all.skip(k as int);
                assert(rest[0] == unit);
                assert(rest.skip(1) =~= all.skip(k + 1));
                assert(units@.push(unit) =~= units@ + seq![unit]);
                assert(units@ + until_nul(rest) =~= units@.push(unit) + until_nul(all.skip(k + 1)));
            }
        }
        units.push(unit);
        proof {
            if !nul_terminated {
                assert(units@ =~= all.take(k + 1));
            }
        }
        k = k + 1;
    }
    proof {
        assert(all.skip(n as int) =~= Seq::<u16>::empty());
        assert(until_nul(all.skip(n as int)) =~= Seq::<u16>::empty());
        assert(units@ + Seq::<u16>::empty() =~= units@);
        assert(all.take(n as int) =~= all);
    }
    units
}

/// Decode the UTF-16LE path of `size` bytes at `off` (NUL-terminated fields stop at the first
/// NUL unit) and strip a leading `\??\`. `None` when the field lies outside the blob.
pub fn read_path(blob: &[u8], off: u64, size: usize, nul_terminated: bool) -> (r: Option<String>)
    ensures
        match r {
            Some(s) => spec_read_path(blob@, off as int, size as int, nul_terminated) == Some(s@),
            None => spec_read_path(blob@, off as int, size as int, nul_terminated) is None,
        },
{
    if off > blob.len() as u64 {
        return None;
    }
    let off = off as usize;
    if !fits(blob, off, 0, size) {
        return None;
    }
    let units = collect_units(blob, off, size, nul_terminated);
    let s = string_from_utf16_lossy(units.as_slice());
    Some(strip_prefix_string(s))
}

} // verus!
