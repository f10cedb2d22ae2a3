//! Errors reported by the parser and by byte-string mutation.

use vstd::prelude::*;

verus! {

/// An error that occurred during parsing.
#[derive(Debug, Clone, PartialEq, Eq, PartialOrd, Ord)]
pub enum ParseError {
    /// The input length does not fit in a `u32`.
    InvalidLength,
}

impl ParseError {
    /// A human-readable description of the error.
    pub fn to_string(&self) -> (r: String)
        ensures
            r@ == "The input string length is too large to fit in a `u32`"@,
    {
        "The input string length is too large to fit in a `u32`".to_owned()
    }
}

/// An error that occurred while replacing the content of a byte string.
#[derive(Debug, Clone, PartialEq, Eq, PartialOrd, Ord)]
pub enum SetBytesError {
    /// The length of the given data does not fit in a `u32`.
    LengthOverflow,
}

impl SetBytesError {
    /// A human-readable description of the error.
    pub fn to_string(&self) -> (r: String)
        ensures
            r@ == "The string length is too large to fit in a `u32`"@,
    {
        "The string length is too large to fit in a `u32`".to_owned()
    }
}

} // verus!
