//! The iterator over the nodes that match a selector.

use crate::parser::base::nodes_ok;
use crate::parser::base::Parser;
use crate::parser::handle::NodeHandle;
use crate::queryselector::iterable::spec_item;
use crate::queryselector::iterable::QueryIterable;
use crate::queryselector::selector::Selector;
use vstd::prelude::*;

verus! {

/// The handles of the nodes of `collection` from index `i` up to `n` that match `selector`,
/// in that order.
pub open spec fn spec_matching<'a, Q: QueryIterable<'a>>(
    selector: Selector<'_>,
    collection: &Q,
    parser: &Parser<'a>,
    i: int,
    n: int,
) -> Seq<NodeHandle>
    decreases n - i,
{
    if i >= n || i < 0 {
        Seq::empty()
    } else {
        let rest = spec_matching(selector, collection, parser, i + 1, n);
        if spec_yields(selector, collection, parser, i) {
            seq![spec_handle_at(collection, parser, i)] + rest
        } else {
            rest
        }
    }
}

/// Whether the `i`-th node of `collection` is there and matches `selector`.
pub open spec fn spec_yields<'a, Q: QueryIterable<'a>>(
    selector: Selector<'_>,
    collection: &Q,
    parser: &Parser<'a>,
    i: int,
) -> bool {
    match collection.spec_index(i) {
        Some(k) => match spec_item(parser, k) {
            Some((node, _)) => selector.spec_matches(*node),
            None => false,
        },
        None => false,
    }
}

/// The handle of the `i`-th node of `collection`.
pub open spec fn spec_handle_at<'a, Q: QueryIterable<'a>>(
    collection: &Q,
    parser: &Parser<'a>,
    i: int,
) -> NodeHandle {
    NodeHandle(collection.spec_index(i).unwrap() as u32)
}

/// There are no more matching nodes than there are nodes.
pub proof fn lemma_matching_len<'a, Q: QueryIterable<'a>>(
    selector: Selector<'_>,
    collection: &Q,
    parser: &Parser<'a>,
    i: int,
    n: int,
)
    requires
        0 <= i <= n,
    ensures
        spec_matching(selector, collection, parser, i, n).len() <= n - i,
    decreases n - i,
{
    if i < n {
        lemma_matching_len(selector, collection, parser, i + 1, n);
    }
}

/// A query selector iterator that yields matching HTML nodes.
pub struct QuerySelectorIterator<'a, 'b, Q: QueryIterable<'a>> {
    selector: Selector<'b>,
    collection: &'b Q,
    parser: &'b Parser<'a>,
    index: usize,
    len: usize,
}

impl<'a, 'b, Q: QueryIterable<'a>> Clone for QuerySelectorIterator<'a, 'b, Q> {
    fn clone(&self) -> (r: Self)
        ensures
            r.wf() == self.wf(),
            r.spec_rest() == self.spec_rest(),
    {
        Self {
            selector: self.selector.clone(),
            collection: self.collection,
            parser: self.parser,
            index: self.index,
            len: self.len,
        }
    }
}

impl<'a, 'b, Q: QueryIterable<'a>> QuerySelectorIterator<'a, 'b, Q> {
    /// The collection is ready to be read with the parser.
    pub closed spec fn wf(&self) -> bool {
        self.collection.spec_ready(self.parser) && self.parser.wf()
    }

    /// The handles that are still to come.
    pub closed spec fn spec_rest(&self) -> Seq<NodeHandle> {
        spec_matching(
            self.selector,
            self.collection,
            self.parser,
            self.index as int,
            self.len as int,
        )
    }

    /// Creates a new query selector iterator.
    pub fn new(selector: Selector<'b>, parser: &'b Parser<'a>, collection: &'b Q) -> (r: Self)
        requires
            collection.spec_ready(parser),
            parser.wf(),
        ensures
            r.wf(),
            r.spec_rest() == spec_matching(
                selector,
                collection,
                parser,
                0,
                collection.spec_len(parser),
            ),
    {
        Self { selector, collection, index: 0, len: collection.len(parser), parser }
    }

    /// The next node that matches, if any is left.
    pub fn next(&mut self) -> (r: Option<NodeHandle>)
        requires
            old(self).wf(),
        ensures
            final(self).wf(),
            old(self).spec_rest().len() == 0 ==> r is None && final(self).spec_rest().len() == 0,
            old(self).spec_rest().len() > 0 ==> r == Some(old(self).spec_rest()[0])
                && final(self).spec_rest() == old(self).spec_rest().drop_first(),
    {
        proof {
            self.parser.lemma_wf();
        }
        while self.index < self.len
            invariant
                self.wf(),
                nodes_ok(self.parser.spec_tags()),
                self.selector == old(self).selector,
                self.collection == old(self).collection,
                self.parser == old(self).parser,
                self.len == old(self).len,
                self.spec_rest() == old(self).spec_rest(),
            decreases self.len - self.index,
        {
            let ghost i = self.index as int;
            let ghost rest = spec_matching(
                self.selector,
                self.collection,
                self.parser,
                i + 1,
                self.len as int,
            );
            let node = self.collection.get(self.parser, self.index);
            self.index = self.index + 1;
            match node {
                Some((node, id)) => {
                    let matches = self.selector.matches(node);
                    if matches {
                        proof {
                            assert((seq![id] + rest).drop_first() =~= rest);
                        }
                        return Some(id);
                    }
                },
                None => {},
            }
        }
        None
    }

    /// The number of nodes that match and are still to come.
    pub fn count(self) -> (r: usize)
        requires
            self.wf(),
        ensures
            r == self.spec_rest().len(),
    {
        let mut it = self;
        let mut n: usize = 0;
        proof {
            if it.index <= it.len {
                lemma_matching_len(
                    it.selector,
                    it.collection,
                    it.parser,
                    it.index as int,
                    it.len as int,
                );
            }
        }
        loop
            invariant
                it.wf(),
                n + it.spec_rest().len() == self.spec_rest().len(),
                self.spec_rest().len() <= usize::MAX,
            decreases it.spec_rest().len(),
        {
            match it.next() {
                Some(_) => {
                    n = n + 1;
                },
                None => {
                    return n;
                },
            }
        }
    }
}

} // verus!
