//! Searches that look at one byte at a time.

use crate::simd::as_index;
use crate::simd::equals;
use crate::simd::first_match;
use crate::simd::first_match_from;
use crate::simd::lemma_first_match_none;
use crate::simd::lemma_first_match_unique;
use crate::simd::non_ident;
use crate::simd::one_of;
use crate::simd::Needle;
use vstd::prelude::*;

verus! {

/// Searches `haystack` from `start` for the first byte that `needle` looks for.
pub fn scan_from(haystack: &[u8], start: usize, needle: Needle<'_>) -> (r: Option<usize>)
    requires
        start <= haystack.len(),
    ensures
        as_index(r) == first_match_from(haystack@, needle.pred(), start as int),
{
    let mut i: usize = start;
    while i < haystack.len()
        invariant
            start <= i <= haystack.len(),
            forall|j: int| start <= j < i ==> !(needle.pred())(#[trigger] haystack@[j]),
        decreases haystack.len() - i,
    {
        if needle.matches(haystack[i]) {
            proof {
                lemma_first_match_unique(haystack@, needle.pred(), start as int, i as int);
            }
            return Some(i);
        }
        i += 1;
    }
    proof {
        lemma_first_match_none(haystack@, needle.pred(), start as int);
    }
    None
}

/// Fallback for finding a byte.
pub fn find(haystack: &[u8], needle: u8) -> (r: Option<usize>)
    ensures
        as_index(r) == first_match(haystack@, equals(needle)),
{
    scan_from(haystack, 0, Needle::Byte(needle))
}

/// Fallback for finding any byte of `needle`.
pub fn find_multi<const N: usize>(haystack: &[u8], needle: [u8; N]) -> (r: Option<usize>)
    ensures
        as_index(r) == first_match(haystack@, one_of(needle@)),
{
    let set = needle.as_slice();
    assert(Needle::AnyOf(set).pred() == one_of(needle@)) by {
        assert(set@ == needle@);
        assert(Needle::AnyOf(set).pred() =~= one_of(needle@));
    }
    scan_from(haystack, 0, Needle::AnyOf(set))
}

/// Fallback for searching for the first byte that is not an identifier character.
pub fn search_non_ident(haystack: &[u8]) -> (r: Option<usize>)
    ensures
        as_index(r) == first_match(haystack@, non_ident()),
{
    scan_from(haystack, 0, Needle::NonIdent)
}

} // verus!
