//! Byte searches used by the tokenizer.
//!
//! Every search has two forms: a plain loop ([`fallback`]) and one that works through the
//! input sixteen bytes at a time and leaves the rest to the plain loop ([`stable`]). Both meet
//! the same contract, stated over [`first_match`].

use crate::util::spec_is_ident;
use crate::util::spec_to_lower;
use crate::util::to_lower;
use vstd::prelude::*;

pub mod fallback;
pub mod stable;

verus! {

/// The least index at or after `from` whose byte satisfies `p`, if there is one.
pub open spec fn first_match_from(s: Seq<u8>, p: spec_fn(u8) -> bool, from: int) -> Option<int>
    decreases s.len() - from,
{
    if from < 0 || from >= s.len() {
        None
    } else if p(s[from]) {
        Some(from)
    } else {
        first_match_from(s, p, from + 1)
    }
}

/// The least index whose byte satisfies `p`, if there is one.
pub open spec fn first_match(s: Seq<u8>, p: spec_fn(u8) -> bool) -> Option<int> {
    first_match_from(s, p, 0)
}

/// Whether `i` is the least index at or after `from` whose byte satisfies `p`.
pub open spec fn is_first_match_from(s: Seq<u8>, p: spec_fn(u8) -> bool, from: int, i: int) -> bool {
    &&& from <= i < s.len()
    &&& p(s[i])
    &&& forall|j: int| from <= j < i ==> !p(#[trigger] s[j])
}

/// Whether no byte at or after `from` satisfies `p`.
pub open spec fn no_match_from(s: Seq<u8>, p: spec_fn(u8) -> bool, from: int) -> bool {
    forall|j: int| from <= j < s.len() ==> !p(#[trigger] s[j])
}

/// `first_match_from` gives the least matching index, and gives none only where nothing
/// matches.
pub proof fn lemma_first_match_from(s: Seq<u8>, p: spec_fn(u8) -> bool, from: int)
    requires
        0 <= from,
    ensures
        match first_match_from(s, p, from) {
            Some(i) => is_first_match_from(s, p, from, i),
            None => no_match_from(s, p, from),
        },
    decreases s.len() - from,
{
    if from < s.len() && !p(s[from]) {
        lemma_first_match_from(s, p, from + 1);
    }
}

/// An index that is the least match is the one `first_match_from` gives.
pub proof fn lemma_first_match_unique(s: Seq<u8>, p: spec_fn(u8) -> bool, from: int, i: int)
    requires
        0 <= from,
        is_first_match_from(s, p, from, i),
    ensures
        first_match_from(s, p, from) == Some(i),
{
    lemma_first_match_from(s, p, from);
}

/// Where nothing matches, `first_match_from` gives none.
pub proof fn lemma_first_match_none(s: Seq<u8>, p: spec_fn(u8) -> bool, from: int)
    requires
        0 <= from,
        no_match_from(s, p, from),
    ensures
        first_match_from(s, p, from) is None,
{
    lemma_first_match_from(s, p, from);
}

/// Searching the tail of `s` from `from` finds what searching `s` from `from` finds, shifted.
pub proof fn lemma_first_match_tail(s: Seq<u8>, p: spec_fn(u8) -> bool, from: int)
    requires
        0 <= from <= s.len(),
    ensures
        first_match_from(s, p, from) == match first_match(s.subrange(from, s.len() as int), p) {
            Some(i) => Some(i + from),
            None => None,
        },
{
    let t = s.subrange(from, s.len() as int);
    lemma_first_match_from(t, p, 0);
    match first_match(t, p) {
        Some(i) => {
            assert forall|j: int| from <= j < i + from implies !p(#[trigger] s[j]) by {
                assert(s[j] == t[j - from]);
            }
            assert(s[i + from] == t[i]);
            lemma_first_match_unique(s, p, from, i + from);
        },
        None => {
            assert forall|j: int| from <= j < s.len() implies !p(#[trigger] s[j]) by {
                assert(s[j] == t[j - from]);
            }
            lemma_first_match_none(s, p, from);
        },
    }
}

/// The position an exec search reports, as a mathematical index.
pub open spec fn as_index(r: Option<usize>) -> Option<int> {
    match r {
        Some(i) => Some(i as int),
        None => None,
    }
}

/// What a search looks for.
#[derive(Debug, Clone, Copy)]
pub enum Needle<'n> {
    /// One given byte.
    Byte(u8),
    /// Any of the given bytes.
    AnyOf(&'n [u8]),
    /// Any byte other than the given ones.
    NoneOf(&'n [u8]),
    /// Any byte that is not an identifier character.
    NonIdent,
}

impl<'n> Needle<'n> {
    /// Whether `b` is what this needle looks for.
    pub open spec fn spec_matches(&self, b: u8) -> bool {
        match *self {
            Needle::Byte(n) => b == n,
            Needle::AnyOf(set) => set@.contains(b),
            Needle::NoneOf(set) => !set@.contains(b),
            Needle::NonIdent => !spec_is_ident(b),
        }
    }

    /// The predicate of this needle.
    pub open spec fn pred(&self) -> spec_fn(u8) -> bool {
        |b: u8| self.spec_matches(b)
    }

    /// Checks whether `b` is what this needle looks for.
    pub fn matches(&self, b: u8) -> (r: bool)
        ensures
            r == self.spec_matches(b),
    {
        match self {
            Needle::Byte(n) => b == *n,
            Needle::AnyOf(set) => {
                let mut k: usize = 0;
                while k < set.len()
                    invariant
                        k <= set.len(),
                        *self == Needle::AnyOf(*set),
                        forall|j: int| 0 <= j < k ==> set@[j] != b,
                    decreases set.len() - k,
                {
                    if set[k] == b {
                        assert(set@[k as int] == b);
                        return true;
                    }
                    k += 1;
                }
                false
            },
            Needle::NoneOf(set) => {
                let mut k: usize = 0;
                while k < set.len()
                    invariant
                        k <= set.len(),
                        *self == Needle::NoneOf(*set),
                        forall|j: int| 0 <= j < k ==> set@[j] != b,
                    decreases set.len() - k,
                {
                    if set[k] == b {
                        assert(set@[k as int] == b);
                        return false;
                    }
                    k += 1;
                }
                true
            },
            Needle::NonIdent => !crate::util::is_ident(b),
        }
    }
}

/// The byte `/`.
pub const SLASH: u8 = 0x2f;

/// The byte `>`.
pub const GREATER: u8 = 0x3e;

/// Whether `needle` is `/` or `>`.
pub open spec fn spec_is_closing(needle: u8) -> bool {
    needle == SLASH || needle == GREATER
}

/// Checks if the given byte is a "closing" byte (`/` or `>`).
#[verifier::when_used_as_spec(spec_is_closing)]
pub fn is_closing(needle: u8) -> (r: bool)
    ensures
        r == spec_is_closing(needle),
{
    stable::is_closing(needle)
}

/// The predicate "is not an identifier character".
pub open spec fn non_ident() -> spec_fn(u8) -> bool {
    Needle::NonIdent.pred()
}

/// The predicate "equals `needle`".
pub open spec fn equals(needle: u8) -> spec_fn(u8) -> bool {
    Needle::Byte(needle).pred()
}

/// The predicate "is one of `needle`".
pub open spec fn one_of(needle: Seq<u8>) -> spec_fn(u8) -> bool {
    |b: u8| needle.contains(b)
}

/// The predicate "is none of `needle`".
pub open spec fn none_of(needle: Seq<u8>) -> spec_fn(u8) -> bool {
    |b: u8| !needle.contains(b)
}

/// Searches for the first byte of `haystack` that is not an identifier character.
pub fn search_non_ident(haystack: &[u8]) -> (r: Option<usize>)
    ensures
        as_index(r) == first_match(haystack@, non_ident()),
{
    stable::search_non_ident(haystack)
}

/// Searches for the first byte of `haystack` that is one of the four bytes of `needle`.
pub fn find4(haystack: &[u8], needle: [u8; 4]) -> (r: Option<usize>)
    ensures
        as_index(r) == first_match(haystack@, one_of(needle@)),
{
    stable::find_multi(haystack, needle)
}

/// Searches for the first occurrence of `needle` in `haystack`.
pub fn find(haystack: &[u8], needle: u8) -> (r: Option<usize>)
    ensures
        as_index(r) == first_match(haystack@, equals(needle)),
{
    stable::find(haystack, needle)
}

/// Whether `haystack` has the length of `needle` and equals it once its ASCII upper-case
/// letters are lowered.
pub open spec fn spec_matches_case_insensitive(haystack: Seq<u8>, needle: Seq<u8>) -> bool {
    &&& haystack.len() == needle.len()
    &&& forall|i: int| 0 <= i < needle.len() ==> spec_to_lower(#[trigger] haystack[i]) == needle[i]
}

/// Checks if the ASCII characters in `haystack` match `needle` (case insensitive).
///
/// `needle` is expected in lower case: its bytes are compared as they are.
pub fn matches_case_insensitive<const N: usize>(haystack: &[u8], needle: [u8; N]) -> (r: bool)
    ensures
        r == spec_matches_case_insensitive(haystack@, needle@),
{
    if haystack.len() != N {
        return false;
    }
    let mut mask = true;
    let mut i: usize = 0;
    while i < N
        invariant
            i <= N,
            haystack.len() == N,
            mask == (forall|j: int| 0 <= j < i ==> spec_to_lower(#[trigger] haystack@[j]) == needle@[j]),
        decreases N - i,
    {
        let same = to_lower(haystack[i]) == needle[i];
        mask = mask && same;
        i += 1;
    }
    mask
}

} // verus!
