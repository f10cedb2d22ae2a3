//! Collections that keep their first few elements in place and move to the heap only when
//! they outgrow that room.

use vstd::prelude::*;

pub mod hashed;
pub mod hashmap;
pub mod vec;

verus! {

/// A fresh value of `T`: what `T::default` gives.
pub(crate) fn fresh<T: Default>() -> (r: T)
    ensures
        call_ensures(T::default, (), r),
{
    T::default()
}

/// Builds an array with `core::array::from_fn`, each slot filled by [`fresh`].
///
/// Nothing is claimed of what the slots hold: the collections never read a slot before they
/// have written it.
#[verifier::external_body]
pub(crate) fn uninit_array<T: Default, const N: usize>() -> [T; N] {
    core::array::from_fn(|_| fresh::<T>())
}

} // verus!
