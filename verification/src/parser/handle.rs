//! Handles: indices into the node table of a parser.

use crate::parser::base::Parser;
use crate::parser::tag::Node;
use vstd::prelude::*;

verus! {

/// The inner type of a [`NodeHandle`]: an index into the node table.
pub type InnerNodeHandle = u32;

/// A detached handle to a node, originally obtained from a [`Parser`].
///
/// A handle is an index into the node table of the parser that issued it, and has no meaning
/// with any other parser: resolving it there gives whatever node stands at that index, or
/// nothing. Keeping handles with their parser is the caller's obligation.
#[derive(Debug, Clone, Copy, PartialEq, Eq, PartialOrd, Ord, Hash, Default, Structural)]
pub struct NodeHandle(pub InnerNodeHandle);

impl NodeHandle {
    /// Creates a new handle to the node at index `node`.
    pub fn new(node: InnerNodeHandle) -> (r: Self)
        ensures
            r == NodeHandle(node),
    {
        NodeHandle(node)
    }

    /// Returns a reference to the node that this handle stands for in `parser`, or `None` if
    /// the index points outside of its node table.
    pub fn get<'p, 'buf>(&self, parser: &'p Parser<'buf>) -> (r: Option<&'p Node<'buf>>)
        ensures
            r == parser.spec_node(self.0),
    {
        parser.resolve_node_id(self.0)
    }

    /// Returns a mutable reference to the node that this handle stands for in `parser`, or
    /// `None` if the index points outside of its node table.
    pub fn get_mut<'p, 'buf>(&self, parser: &'p mut Parser<'buf>) -> (r: Option<&'p mut Node<'buf>>)
        ensures
            final(parser).spec_same_frame(old(parser)),
            self.0 >= old(parser).spec_tags().len() ==> r is None && final(parser).spec_tags()
                == old(parser).spec_tags(),
            self.0 < old(parser).spec_tags().len() ==> r is Some && *r.unwrap() == old(
                parser,
            ).spec_tags()[self.0 as int] && final(parser).spec_tags() == old(
                parser,
            ).spec_tags().update(self.0 as int, *final(r.unwrap())),
    {
        parser.resolve_node_id_mut(self.0)
    }

    /// Returns the index into the node table that this handle holds.
    pub fn get_inner(&self) -> (r: InnerNodeHandle)
        ensures
            r == self.0,
    {
        self.0
    }
}

} // verus!
