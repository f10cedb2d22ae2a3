//! The order of byte strings.

use crate::bytes::compare_bytes;
use crate::bytes::spec_compare;
use crate::bytes::Bytes;
use core::cmp::Ordering;
use vstd::prelude::*;
use vstd::std_specs::cmp::PartialOrdSpecImpl;

verus! {

/// The ordering that the number `code` stands for: less for a negative number, greater for a
/// positive one, equal for zero.
pub open spec fn ordering_of(code: int) -> Ordering {
    if code < 0 {
        Ordering::Less
    } else if code > 0 {
        Ordering::Greater
    } else {
        Ordering::Equal
    }
}

impl<'a> PartialOrd for Bytes<'a> {
    /// Byte strings stand in the order of the dictionary, whatever their storage.
    fn partial_cmp(&self, other: &Self) -> (r: Option<Ordering>) {
        let code = compare_bytes(self.as_bytes(), other.as_bytes());
        if code < 0 {
            Some(Ordering::Less)
        } else if code > 0 {
            Some(Ordering::Greater)
        } else {
            Some(Ordering::Equal)
        }
    }
}

impl<'a> PartialOrdSpecImpl for Bytes<'a> {
    open spec fn obeys_partial_cmp_spec() -> bool {
        true
    }

    open spec fn partial_cmp_spec(&self, other: &Self) -> Option<Ordering> {
        Some(ordering_of(spec_compare(self@, other@)))
    }
}

} // verus!
