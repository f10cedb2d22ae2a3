//! The marker that keeps the traits of this crate closed to other crates.

use crate::parser::tag::HTMLTag;
use crate::vdom::VDom;
use vstd::prelude::*;

verus! {

/// A trait that only this crate can implement, and that the sealed traits of this crate
/// require.
pub trait Sealed {

}

impl Sealed for Vec<u8> {

}

impl Sealed for Box<[u8]> {

}

impl Sealed for &[u8] {

}

impl Sealed for &str {

}

impl Sealed for String {

}

impl<'a> Sealed for VDom<'a> {

}

impl<'a> Sealed for HTMLTag<'a> {

}

} // verus!
