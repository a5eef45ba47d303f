//! Lowercasing, which the standard library does and this crate takes on
//! trust.

use vstd::prelude::*;

verus! {

/// The lowercase form of a text as `str::to_lowercase` gives it: the Unicode
/// lowercase mapping of each character, with a capital sigma at the end of a
/// word mapped to the final form of the small one. One character may map to
/// several, so the length may change.
pub uninterp spec fn lowercase_of(s: Seq<char>) -> Seq<char>;

/// Calls `str::to_lowercase`. Trusted: the result is the lowercase form of
/// `s`, which depends on the characters of `s` alone.
#[verifier::external_body]
pub(crate) fn to_lowercase(s: &str) -> (lower: String)
    ensures
        lower@ == lowercase_of(s@),
{
    s.to_lowercase()
}

} // verus!
