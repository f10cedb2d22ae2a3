//! The collections that a query selector can run over.

use crate::parser::base::handles_below;
use crate::parser::base::Parser;
use crate::parser::handle::InnerNodeHandle;
use crate::parser::handle::NodeHandle;
use crate::parser::tag::spec_boundaries;
use crate::sealed::Sealed;
use crate::parser::tag::HTMLTag;
use crate::parser::tag::Node;
use crate::vdom::VDom;
use vstd::prelude::*;

verus! {

/// The node and the handle at index `k` of the table of `parser`, if there is such an index.
pub open spec fn spec_item<'a, 'b>(parser: &'b Parser<'a>, k: int) -> Option<
    (&'b Node<'a>, NodeHandle),
> {
    if 0 <= k < parser.spec_tags().len() {
        Some((&parser.spec_tags()[k], NodeHandle(k as u32)))
    } else {
        None
    }
}

/// Trait for types that a query selector can iterate over.
///
/// Such a collection is a run of nodes of the table of a parser: it has a length, and its
/// `i`-th node stands at some index of the table.
///
/// This trait is sealed and cannot be implemented outside of this crate.
pub trait QueryIterable<'a>: Sized + Sealed {
    /// What `get` and `len` need of the collection and the parser.
    spec fn spec_ready(&self, parser: &Parser<'a>) -> bool;

    /// What `start` needs of the collection.
    spec fn spec_wf(&self) -> bool;

    /// The number of nodes.
    spec fn spec_len(&self, parser: &Parser<'a>) -> int;

    /// The index in the table at which the `i`-th node stands.
    spec fn spec_index(&self, i: int) -> Option<int>;

    /// Gets a node at a specific index.
    fn get<'b>(&'b self, parser: &'b Parser<'a>, index: usize) -> (r: Option<
        (&'b Node<'a>, NodeHandle),
    >)
        requires
            self.spec_ready(parser),
        ensures
            r == match self.spec_index(index as int) {
                Some(k) => spec_item(parser, k),
                None => None,
            },
    ;

    /// Gets or computes the length (number of nodes).
    fn len(&self, parser: &Parser<'a>) -> (r: usize)
        requires
            self.spec_ready(parser),
        ensures
            r == self.spec_len(parser),
    ;

    /// Gets the starting index.
    fn start(&self) -> (r: Option<InnerNodeHandle>)
        requires
            self.spec_wf(),
        ensures
            r == match self.spec_index(0) {
                Some(k) => Some(k as u32),
                None => None,
            },
    ;
}

impl<'a> QueryIterable<'a> for VDom<'a> {
    open spec fn spec_ready(&self, parser: &Parser<'a>) -> bool {
        parser.wf()
    }

    open spec fn spec_wf(&self) -> bool {
        true
    }

    open spec fn spec_len(&self, parser: &Parser<'a>) -> int {
        parser.spec_tags().len() as int
    }

    /// In a document, the index of a node is its place in the table.
    open spec fn spec_index(&self, i: int) -> Option<int> {
        Some(i)
    }

    fn get<'b>(&'b self, parser: &'b Parser<'a>, index: usize) -> (r: Option<
        (&'b Node<'a>, NodeHandle),
    >) {
        proof {
            parser.lemma_wf();
        }
        let tags = parser.tags();
        if index < tags.len() {
            Some((&tags[index], NodeHandle::new(index as u32)))
        } else {
            None
        }
    }

    fn len(&self, parser: &Parser<'a>) -> (r: usize) {
        parser.tags().len()
    }

    fn start(&self) -> (r: Option<InnerNodeHandle>) {
        Some(0)
    }
}

impl<'a> QueryIterable<'a> for HTMLTag<'a> {
    open spec fn spec_ready(&self, parser: &Parser<'a>) -> bool {
        &&& parser.wf()
        &&& self.wf()
        &&& handles_below(self.spec_children()@, parser.spec_tags().len() as int)
    }

    open spec fn spec_wf(&self) -> bool {
        self.wf()
    }

    /// The nodes below a tag are those from its first child to the last node below it.
    open spec fn spec_len(&self, parser: &Parser<'a>) -> int {
        match spec_boundaries(parser.spec_tags(), self.spec_children()@) {
            Some((start, end)) => if start <= end {
                end - start + 1
            } else {
                0
            },
            None => 0,
        }
    }

    /// The nodes below a tag stand in the table from its first child on.
    open spec fn spec_index(&self, i: int) -> Option<int> {
        if self.spec_children()@.len() > 0 {
            Some(self.spec_children()@[0].0 + i)
        } else {
            None
        }
    }

    fn get<'b>(&'b self, parser: &'b Parser<'a>, index: usize) -> (r: Option<
        (&'b Node<'a>, NodeHandle),
    >) {
        proof {
            parser.lemma_wf();
            self.lemma_view();
        }
        let tags = parser.tags();
        match self.children().start() {
            Some(h) => {
                let first = h as usize;
                if index < tags.len() && first < tags.len() - index {
                    let at = first + index;
                    Some((&tags[at], NodeHandle::new(at as u32)))
                } else {
                    None
                }
            },
            None => None,
        }
    }

    fn len(&self, parser: &Parser<'a>) -> (r: usize) {
        proof {
            parser.lemma_wf();
        }
        match self.children().boundaries(parser) {
            Some((start, end)) => {
                if start <= end {
                    ((end - start) + 1) as usize
                } else {
                    0
                }
            },
            None => 0,
        }
    }

    fn start(&self) -> (r: Option<InnerNodeHandle>) {
        proof {
            self.lemma_view();
        }
        self.children().start()
    }
}

} // verus!
