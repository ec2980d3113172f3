//! Character-level helpers over decoded paths.

use vstd::prelude::*;

verus! {

/// The characters of a string slice, in order.
pub fn chars_of(s: &str) -> (v: Vec<char>)
    ensures
        v@ == s@,
{
    broadcast use vstd::string::axiom_spec_iter;
    let mut v: Vec<char> = Vec::new();
    for c in it: s.chars()
        invariant
            v@ == it.seq().take(it.index()),
            it.seq() == s@,
    {
        assert(it.seq().take(it.index() + 1) =~= it.seq().take(it.index()).push(c));
        v.push(c);
    }
    v
}


/// Whether `p` occurs in `s` as a contiguous run of characters.
pub open spec fn seq_contains(s: Seq<char>, p: Seq<char>) -> bool {
    exists|i: int| 0 <= i <= s.len() - p.len() && #[trigger] s.subrange(i, i + p.len()) == p
}

/// Whether `p` matches `s` at position `i`.
fn matches_at(s: &Vec<char>, p: &Vec<char>, i: usize) -> (r: bool)
    requires
        i + p.len() <= s.len(),
    ensures
        r == (s@.subrange(i as int, i + p.len()) == p@),
{
    let mut k: usize = 0;
    while k < p.len()
        invariant
            i + p.len() <= s.len(),
            k <= p.len(),
            forall|j: int| 0 <= j < k ==> s@[i + j] == p@[j],
        decreases p.len() - k,
    {
        if s[i + k] != p[k] {
            assert(s@.subrange(i as int, i + p.len())[k as int] != p@[k as int]);
            return false;
        }
        k = k + 1;
    }
    assert(s@.subrange(i as int, i + p.len()) =~= p@);
    true
}

/// Whether `p` occurs in `s`.
pub fn contains_chars(s: &Vec<char>, p: &Vec<char>) -> (r: bool)
    ensures
        r == seq_contains(s@, p@),
{
    if p.len() > s.len() {
        return false;
    }
    let last = s.len() - p.len();
    let mut i: usize = 0;
    loop
        invariant
            last == s.len() - p.len(),
            p.len() <= s.len(),
            i <= last,
            forall|j: int| 0 <= j < i ==> #[trigger] s@.subrange(j, j + p.len()) != p@,
        decreases last - i,
    {
        if matches_at(s, p, i) {
            return true;
        }
        if i == last {
            return false;
        }
        i = i + 1;
    }
}

/// Whether `c` separates Windows path components (`\` or `/`).
pub open spec fn is_separator(c: char) -> bool {
    c == '\\' || c == '/'
}

/// The index just past the last separator of `s` (`0` when it has none).
pub open spec fn base_start(s: Seq<char>) -> nat
    decreases s.len(),
{
    if s.len() == 0 {
        0
    } else if is_separator(s.last()) {
        s.len()
    } else {
        base_start(s.drop_last())
    }
}

/// The last `\`/`/`-separated component of a path (the whole path when it has no separator).
pub open spec fn base_name(s: Seq<char>) -> Seq<char> {
    s.skip(base_start(s) as int)
}

proof fn lemma_base_start(s: Seq<char>, k: int)
    requires
        0 <= k <= s.len(),
        forall|j: int| k <= j < s.len() ==> !is_separator(#[trigger] s[j]),
        k == 0 || is_separator(s[k - 1]),
    ensures
        base_start(s) == k,
    decreases s.len(),
{
    if s.len() > 0 && k < s.len() {
        assert(!is_separator(s[s.len() - 1]));
        let t = s.drop_last();
        assert forall|j: int| k <= j < t.len() implies !is_separator(#[trigger] t[j]) by {
            assert(t[j] == s[j]);
        }
        if k > 0 {
            assert(t[k - 1] == s[k - 1]);
        }
        lemma_base_start(t, k);
    }
}

/// The base name (last `\`/`/`-component) of a Windows path.
pub fn base_name_of(path: &str) -> (r: String)
    ensures
        r@ == base_name(path@),
{
    let chars = chars_of(path);
    let mut k: usize = chars.len();
    while k > 0
        invariant
            chars@ == path@,
            k <= chars.len(),
            forall|j: int| k <= j < chars.len() ==> !is_separator(#[trigger] chars@[j]),
        ensures
            k <= chars.len(),
            forall|j: int| k <= j < chars.len() ==> !is_separator(#[trigger] chars@[j]),
            k == 0 || is_separator(chars@[k - 1]),
        decreases k,
    {
        let c = chars[k - 1];
        if c == '\\' || c == '/' {
            break;
        }
        k = k - 1;
    }
    proof {
        lemma_base_start(path@, k as int);
    }
    let tail = path.substring_char(k, chars.len());
    let r = tail.to_owned();
    assert(r@ =~= path@.skip(k as int));
    r
}

} // verus!
