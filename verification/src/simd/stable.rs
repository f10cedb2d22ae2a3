//! Searches that take sixteen bytes at a time.
//!
//! Each block is condensed into a 16-bit mask with one bit per byte; the lowest set bit of the
//! first non-zero mask gives the position. Bytes after the last full block are searched by the
//! plain loop.

use crate::simd::as_index;
use crate::simd::equals;
use crate::simd::fallback;
use crate::simd::first_match;
use crate::simd::lemma_first_match_from;
use crate::simd::lemma_first_match_none;
use crate::simd::lemma_first_match_unique;
use crate::simd::non_ident;
use crate::simd::one_of;
use crate::simd::spec_is_closing;
use crate::simd::Needle;
use crate::simd::GREATER;
use crate::simd::SLASH;
use vstd::prelude::*;

verus! {

/// The number of bytes in a block.
pub const BLOCK: usize = 16;

/// Optimized function for checking if a byte is a closing byte.
pub fn is_closing(needle: u8) -> (r: bool)
    ensures
        r == spec_is_closing(needle),
{
    let eq1 = needle == SLASH;
    let eq2 = needle == GREATER;
    eq1 || eq2
}

/// Whether bit `k` of `mask` is set.
pub open spec fn bit(mask: u16, k: int) -> bool {
    (mask >> (k as u16)) & 1u16 == 1u16
}

/// Whether `mask` marks, among the first `n` bytes of the block at `base`, exactly those that
/// satisfy `p`, and has no bit set from `n` on.
pub open spec fn mask_of(
    s: Seq<u8>,
    p: spec_fn(u8) -> bool,
    base: int,
    n: int,
    mask: u16,
) -> bool {
    forall|k: int| 0 <= k < BLOCK ==> #[trigger] bit(mask, k) == (k < n && p(s[base + k]))
}

proof fn lemma_bit_zero()
    ensures
        forall|k: int| 0 <= k < BLOCK ==> !#[trigger] bit(0u16, k),
{
    assert forall|k: int| 0 <= k < BLOCK implies !#[trigger] bit(0u16, k) by {
        let ku = k as u16;
        assert((0u16 >> ku) & 1u16 == 0u16) by (bit_vector);
    }
}

proof fn lemma_bit_set(mask: u16, j: u16)
    requires
        j < 16,
    ensures
        forall|k: int|
            0 <= k < BLOCK ==> #[trigger] bit(mask | (1u16 << j), k) == (k == j || bit(mask, k)),
{
    assert forall|k: int| 0 <= k < BLOCK implies #[trigger] bit(mask | (1u16 << j), k) == (k == j
        || bit(mask, k)) by {
        let ku = k as u16;
        assert(ku < 16 && j < 16 ==> (((mask | (1u16 << j)) >> ku) & 1u16 == 1u16) == (ku == j || (
        mask >> ku) & 1u16 == 1u16)) by (bit_vector);
    }
}

proof fn lemma_lowest_bit(mask: u16)
    requires
        mask != 0,
    ensures
        mask.trailing_zeros() < 16,
        bit(mask, mask.trailing_zeros() as int),
        forall|k: int| 0 <= k < mask.trailing_zeros() ==> !#[trigger] bit(mask, k),
{
    vstd::std_specs::bits::axiom_u16_trailing_zeros(mask);
    let tz = mask.trailing_zeros();
    assert forall|k: int| 0 <= k < tz implies !#[trigger] bit(mask, k) by {
        let ku = k as u16;
        assert((mask >> ku) & 1u16 == 0u16);
    }
}

/// Condenses the block of `haystack` at `base` into its mask.
fn block_mask(haystack: &[u8], base: usize, needle: Needle<'_>) -> (mask: u16)
    requires
        base + BLOCK <= haystack.len(),
    ensures
        mask_of(haystack@, needle.pred(), base as int, BLOCK as int, mask),
{
    let mut mask: u16 = 0;
    let mut j: usize = 0;
    proof {
        lemma_bit_zero();
    }
    while j < BLOCK
        invariant
            j <= BLOCK,
            base + BLOCK <= haystack.len(),
            mask_of(haystack@, needle.pred(), base as int, j as int, mask),
        decreases BLOCK - j,
    {
        if needle.matches(haystack[base + j]) {
            proof {
                lemma_bit_set(mask, j as u16);
            }
            mask = mask | (1u16 << (j as u16));
        }
        j += 1;
    }
    mask
}

/// Searches `haystack` block by block for the first byte that `needle` looks for.
pub fn scan(haystack: &[u8], needle: Needle<'_>) -> (r: Option<usize>)
    ensures
        as_index(r) == first_match(haystack@, needle.pred()),
{
    let len = haystack.len();
    let mut index: usize = 0;
    while len - index >= BLOCK
        invariant
            index <= len,
            len == haystack.len(),
            forall|j: int| 0 <= j < index ==> !(needle.pred())(#[trigger] haystack@[j]),
        decreases len - index,
    {
        let mask = block_mask(haystack, index, needle);
        if mask != 0 {
            let local = mask.trailing_zeros() as usize;
            proof {
                lemma_lowest_bit(mask);
                assert(bit(mask, local as int));
                assert forall|j: int| 0 <= j < index + local implies !(needle.pred())(
                    #[trigger] haystack@[j],
                ) by {
                    if j >= index {
                        assert(!bit(mask, j - index));
                    }
                }
                lemma_first_match_unique(haystack@, needle.pred(), 0, index + local);
            }
            return Some(index + local);
        }
        proof {
            lemma_bit_zero();
            assert forall|j: int| 0 <= j < index + BLOCK implies !(needle.pred())(
                #[trigger] haystack@[j],
            ) by {
                if j >= index {
                    assert(!bit(mask, j - index));
                }
            }
        }
        index += BLOCK;
    }
    let r = fallback::scan_from(haystack, index, needle);
    proof {
        lemma_first_match_from(haystack@, needle.pred(), index as int);
        match r {
            Some(i) => {
                lemma_first_match_unique(haystack@, needle.pred(), 0, i as int);
            },
            None => {
                lemma_first_match_none(haystack@, needle.pred(), 0);
            },
        }
    }
    r
}

/// Optimized, stable function for finding any byte of `needle` in `haystack`.
pub fn find_multi<const N: usize>(haystack: &[u8], needle: [u8; N]) -> (r: Option<usize>)
    ensures
        as_index(r) == first_match(haystack@, one_of(needle@)),
{
    let set = needle.as_slice();
    assert(Needle::AnyOf(set).pred() == one_of(needle@)) by {
        assert(set@ == needle@);
        assert(Needle::AnyOf(set).pred() =~= one_of(needle@));
    }
    scan(haystack, Needle::AnyOf(set))
}

/// Optimized, stable function for finding a byte in `haystack`.
pub fn find(haystack: &[u8], needle: u8) -> (r: Option<usize>)
    ensures
        as_index(r) == first_match(haystack@, equals(needle)),
{
    scan(haystack, Needle::Byte(needle))
}

/// Optimized, stable function for searching for the first byte that is not an identifier
/// character.
pub fn search_non_ident(haystack: &[u8]) -> (r: Option<usize>)
    ensures
        as_index(r) == first_match(haystack@, non_ident()),
{
    scan(haystack, Needle::NonIdent)
}

} // verus!
