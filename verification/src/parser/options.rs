//! Options of the parser.

use vstd::prelude::*;

verus! {

/// The flag that turns on the id index.
pub const TRACK_IDS: u8 = 1;

/// The flag that turns on the class index.
pub const TRACK_CLASSES: u8 = 2;

/// The highest flag.
pub const HIGHEST: u8 = 2;

/// The nesting depth that a parser allows unless told otherwise.
pub const DEFAULT_MAX_DEPTH: usize = 256;

/// Options for the HTML parser.
///
/// The default options index nothing and allow [`DEFAULT_MAX_DEPTH`] open tags at a time.
/// Lookups by id or by class name are faster on a document that was parsed with the
/// matching index turned on.
#[derive(Debug, Copy, Clone, PartialEq, Eq, Structural)]
pub struct ParserOptions {
    flags: u8,
    max_depth: usize,
}

impl Default for ParserOptions {
    fn default() -> (r: Self)
        ensures
            r.spec_to_raw() == 0,
            r.spec_max_depth() == DEFAULT_MAX_DEPTH,
    {
        Self { flags: 0, max_depth: DEFAULT_MAX_DEPTH }
    }
}

impl ParserOptions {
    /// The flags as a bitset.
    pub closed spec fn spec_to_raw(&self) -> u8 {
        self.flags
    }

    /// The greatest number of tags that may be open at a time.
    pub closed spec fn spec_max_depth(&self) -> usize {
        self.max_depth
    }

    /// Whether `flag` is set.
    pub open spec fn spec_has_flag(&self, flag: u8) -> bool {
        self.spec_to_raw() & flag != 0
    }

    /// Whether the id index is turned on.
    pub open spec fn spec_is_tracking_ids(&self) -> bool {
        self.spec_has_flag(TRACK_IDS)
    }

    /// Whether the class index is turned on.
    pub open spec fn spec_is_tracking_classes(&self) -> bool {
        self.spec_has_flag(TRACK_CLASSES)
    }

    /// Creates a new [`ParserOptions`] with no flags set.
    pub fn new() -> (r: Self)
        ensures
            r.spec_to_raw() == 0,
            r.spec_max_depth() == DEFAULT_MAX_DEPTH,
    {
        Self { flags: 0, max_depth: DEFAULT_MAX_DEPTH }
    }

    /// Creates a [`ParserOptions`] from a bitset, unless it holds a bit that is no flag.
    pub fn from_raw_checked(flags: u8) -> (r: Option<Self>)
        ensures
            flags > 3 ==> r is None,
            flags <= 3 ==> r is Some && r.unwrap().spec_to_raw() == flags
                && r.unwrap().spec_max_depth() == DEFAULT_MAX_DEPTH,
    {
        if flags > HIGHEST * 2 - 1 {
            None
        } else {
            Some(Self { flags, max_depth: DEFAULT_MAX_DEPTH })
        }
    }

    /// Returns the raw flags of this bitset.
    pub fn to_raw(&self) -> (r: u8)
        ensures
            r == self.spec_to_raw(),
    {
        self.flags
    }

    /// Sets `flag`.
    pub fn set_flag(&mut self, flag: u8)
        ensures
            final(self).spec_to_raw() == old(self).spec_to_raw() | flag,
            final(self).spec_max_depth() == old(self).spec_max_depth(),
    {
        self.flags = self.flags | flag;
    }

    /// Checks whether `flag` is set.
    pub fn has_flag(&self, flag: u8) -> (r: bool)
        ensures
            r == self.spec_has_flag(flag),
    {
        self.flags & flag != 0
    }

    /// Turns on the id index, which makes lookups by id fast.
    pub fn track_ids(self) -> (r: Self)
        ensures
            r.spec_to_raw() == self.spec_to_raw() | TRACK_IDS,
            r.spec_is_tracking_ids(),
            r.spec_is_tracking_classes() == self.spec_is_tracking_classes(),
            r.spec_max_depth() == self.spec_max_depth(),
    {
        let mut r = self;
        r.set_flag(TRACK_IDS);
        proof {
            let f = self.flags;
            assert((f | 1u8) & 1u8 != 0) by (bit_vector);
            assert(((f | 1u8) & 2u8 != 0) == (f & 2u8 != 0)) by (bit_vector);
        }
        r
    }

    /// Turns on the class index, which makes lookups by class name fast.
    pub fn track_classes(self) -> (r: Self)
        ensures
            r.spec_to_raw() == self.spec_to_raw() | TRACK_CLASSES,
            r.spec_is_tracking_classes(),
            r.spec_is_tracking_ids() == self.spec_is_tracking_ids(),
            r.spec_max_depth() == self.spec_max_depth(),
    {
        let mut r = self;
        r.set_flag(TRACK_CLASSES);
        proof {
            let f = self.flags;
            assert((f | 2u8) & 2u8 != 0) by (bit_vector);
            assert(((f | 2u8) & 1u8 != 0) == (f & 1u8 != 0)) by (bit_vector);
        }
        r
    }

    /// Sets the greatest number of tags that may be open at a time.
    ///
    /// A tag that would be opened beyond that depth gets no children: what follows it is
    /// attached to the innermost tag that is open.
    pub fn with_max_depth(self, depth: usize) -> (r: Self)
        ensures
            r.spec_to_raw() == self.spec_to_raw(),
            r.spec_max_depth() == depth,
    {
        Self { flags: self.flags, max_depth: depth }
    }

    /// Returns the greatest number of tags that may be open at a time.
    pub fn max_depth(&self) -> (r: usize)
        ensures
            r == self.spec_max_depth(),
    {
        self.max_depth
    }

    /// Returns whether the parser is tracking ids.
    pub fn is_tracking_ids(&self) -> (r: bool)
        ensures
            r == self.spec_is_tracking_ids(),
    {
        self.has_flag(TRACK_IDS)
    }

    /// Returns whether the parser is tracking classes.
    pub fn is_tracking_classes(&self) -> (r: bool)
        ensures
            r == self.spec_is_tracking_classes(),
    {
        self.has_flag(TRACK_CLASSES)
    }

    /// Returns whether the parser is tracking ids or classes.
    pub fn is_tracking(&self) -> (r: bool)
        ensures
            r == (self.spec_to_raw() != 0),
    {
        self.flags != 0
    }
}

} // verus!
