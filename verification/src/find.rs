//! Substring search.

use vstd::prelude::*;
use crate::encoding::lemma_occurs_in_encoded;
use crate::text::occurs_at;
use crate::text::occurs_in;

verus! {

/// Tells whether `pat` stands in `hay` at offset `at`.
fn matches_at(hay: &[u8], pat: &[u8], at: usize) -> (hit: bool)
    requires
        at + pat@.len() <= hay@.len(),
    ensures
        hit == occurs_at(hay@, pat@, at as int),
{
    let n = hay.len();
    let m = pat.len();
    let mut k: usize = 0;
    while k < m
        invariant
            n == hay@.len(),
            m == pat@.len(),
            at + m <= n,
            0 <= k <= m,
            forall|j: int| 0 <= j < k ==> hay@[at + j] == pat@[j],
        decreases m - k,
    {
        if hay[at + k] != pat[k] {
            return false;
        }
        k += 1;
    }
    true
}

/// Tells whether `pat` stands somewhere in `hay`.
fn bytes_contain(hay: &[u8], pat: &[u8]) -> (found: bool)
    ensures
        found == occurs_in(hay@, pat@),
{
    let n = hay.len();
    let m = pat.len();
    if m > n {
        return false;
    }
    let last = n - m;
    let mut at: usize = 0;
    while at <= last
        invariant
            n == hay@.len(),
            m == pat@.len(),
            last == n - m,
            0 <= at <= last + 1,
            forall|j: int| 0 <= j < at ==> !occurs_at(hay@, pat@, j),
        decreases last + 1 - at,
    {
        if matches_at(hay, pat, at) {
            return true;
        }
        at += 1;
    }
    false
}

/// Tells whether `needle` occurs in `haystack`. The empty needle occurs in
/// every haystack.
pub fn contains(haystack: &str, needle: &str) -> (found: bool)
    ensures
        found == occurs_in(haystack@, needle@),
{
    let found = bytes_contain(haystack.as_bytes(), needle.as_bytes());
    proof {
        lemma_occurs_in_encoded(haystack@, needle@);
    }
    found
}

} // verus!
