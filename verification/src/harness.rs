//! Test selection for the shell test suite: command line arguments are
//! substring patterns that select a subset of the tests.

use vstd::prelude::*;
use vstd::string::StringSliceAdditionalSpecFns;
use vstd::utf8::encode_utf8;

verus! {

/// `needle` occurs in `hay`.
pub open spec fn has_substring(hay: Seq<u8>, needle: Seq<u8>) -> bool {
    exists|i: int| 0 <= i && i + needle.len() <= hay.len() && #[trigger] hay.subrange(i, i + needle.len()) == needle
}

/// Whether `needle` occurs in `hay` at `at`.
fn occurs_at(hay: &[u8], needle: &[u8], at: usize) -> (r: bool)
    requires
        at + needle@.len() <= hay@.len(),
    ensures
        r == (hay@.subrange(at as int, at + needle@.len()) == needle@),
{
    let n = needle.len();
    let hl = hay.len();
    let mut k: usize = 0;
    while k < n
        invariant
            n == needle@.len(),
            hl == hay@.len(),
            at + n <= hay@.len(),
            k <= n,
            hay@.subrange(at as int, at + k) == needle@.subrange(0, k as int),
        decreases n - k,
    {
        if hay[at + k] != needle[k] {
            assert(hay@.subrange(at as int, at + n)[k as int] != needle@[k as int]);
            return false;
        }
        k = k + 1;
        assert(hay@.subrange(at as int, at + k) == needle@.subrange(0, k as int));
    }
    assert(needle@.subrange(0, n as int) == needle@);
    true
}

/// Whether `needle` occurs in `hay`, as `str::contains` answers it.
pub fn contains_bytes(hay: &[u8], needle: &[u8]) -> (r: bool)
    ensures
        r == has_substring(hay@, needle@),
{
    let h = hay.len();
    let n = needle.len();
    if n > h {
        return false;
    }
    let last = h - n;
    let mut i: usize = 0;
    loop
        invariant
            h == hay@.len(),
            n == needle@.len(),
            n <= h,
            last == h - n,
            i <= last,
            forall|j: int| 0 <= j < i ==> #[trigger] hay@.subrange(j, j + n) != needle@,
        decreases last - i,
    {
        if occurs_at(hay, needle, i) {
            return true;
        }
        if i == last {
            return false;
        }
        i = i + 1;
    }
}

/// A test is selected when no pattern is given or its name contains one
/// of the patterns.
pub open spec fn selected(name: Seq<u8>, patterns: Seq<Seq<u8>>) -> bool {
    patterns.len() == 0 || exists|i: int| 0 <= i < patterns.len() && has_substring(name, #[trigger] patterns[i])
}

/// Whether the test `name` is selected by `patterns`.
pub fn matches_patterns(name: &str, patterns: &[String]) -> (r: bool)
    ensures
        r == selected(name.spec_bytes(), patterns@.map_values(|p: String| encode_utf8(p@))),
{
    let ghost pats = patterns@.map_values(|p: String| encode_utf8(p@));
    let n = patterns.len();
    if n == 0 {
        return true;
    }
    let hay = name.as_bytes();
    let mut i: usize = 0;
    while i < n
        invariant
            n == patterns@.len(),
            i <= n,
            hay@ == name.spec_bytes(),
            pats == patterns@.map_values(|p: String| encode_utf8(p@)),
            forall|j: int| 0 <= j < i ==> !has_substring(hay@, #[trigger] pats[j]),
        decreases n - i,
    {
        let pat = patterns[i].as_str().as_bytes();
        assert(pat@ == pats[i as int]);
        if contains_bytes(hay, pat) {
            return true;
        }
        i = i + 1;
    }
    false
}

} // verus!
