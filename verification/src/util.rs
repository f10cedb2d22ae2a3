//! Byte classification and hashing, shared by the tokenizer, the selector parser and the maps.

use vstd::prelude::*;

verus! {

/// Whether `c` may appear in an identifier: an ASCII letter, an ASCII digit, `-` or `_`.
pub open spec fn spec_is_ident(c: u8) -> bool {
    ||| 0x30 <= c <= 0x39
    ||| 0x41 <= c <= 0x5a
    ||| 0x61 <= c <= 0x7a
    ||| c == 0x2d
    ||| c == 0x5f
}

/// The ASCII lower-case form of `byte`; bytes other than `A`..`Z` are unchanged.
pub open spec fn spec_to_lower(byte: u8) -> u8 {
    if 0x41 <= byte <= 0x5a {
        (byte + 0x20) as u8
    } else {
        byte
    }
}

/// Checks whether `c` is an identifier character.
#[verifier::when_used_as_spec(spec_is_ident)]
pub fn is_ident(c: u8) -> (r: bool)
    ensures
        r == spec_is_ident(c),
{
    (0x30 <= c && c <= 0x39) || (0x41 <= c && c <= 0x5a) || (0x61 <= c && c <= 0x7a) || c == 0x2d
        || c == 0x5f
}

/// Maps an ASCII upper-case letter to its lower-case form and leaves every other byte as it is.
#[verifier::when_used_as_spec(spec_to_lower)]
pub fn to_lower(byte: u8) -> (r: u8)
    ensures
        r == spec_to_lower(byte),
{
    if byte >= 0x41 && byte <= 0x5a {
        byte + 0x20
    } else {
        byte
    }
}

/// The value that the hash starts from.
pub const HASH_START: u64 = 0xcbf2_9ce4_8422_2325;

/// The factor that the hash is multiplied by for each byte.
pub const HASH_FACTOR: u64 = 0x0000_0100_0000_01b3;

/// The hash `h` after the byte `b` was taken in.
pub open spec fn spec_mix(h: u64, b: u8) -> u64 {
    (h ^ (b as u64)).wrapping_mul(HASH_FACTOR)
}

/// The hash `h` after the bytes of `s` from the `i`-th on were taken in, one after the other.
pub open spec fn spec_hash_from(s: Seq<u8>, i: int, h: u64) -> u64
    decreases s.len() - i,
{
    if i < 0 || i >= s.len() {
        h
    } else {
        spec_hash_from(s, i + 1, spec_mix(h, s[i]))
    }
}

/// The hash of `s`.
pub open spec fn spec_hash(s: Seq<u8>) -> u64 {
    spec_hash_from(s, 0, HASH_START)
}

/// Computes the hash of `s`.
pub fn hash_bytes(s: &[u8]) -> (h: u64)
    ensures
        h == spec_hash(s@),
{
    let mut h: u64 = HASH_START;
    let mut i: usize = 0;
    while i < s.len()
        invariant
            i <= s.len(),
            spec_hash(s@) == spec_hash_from(s@, i as int, h),
        decreases s.len() - i,
    {
        h = (h ^ (s[i] as u64)).wrapping_mul(HASH_FACTOR);
        i += 1;
    }
    h
}

} // verus!
