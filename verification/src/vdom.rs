//! The document that parsing gives.

use crate::bytes::Bytes;
use crate::parser::base::HTMLVersion;
use crate::parser::base::Parser;
use crate::parser::handle::InnerNodeHandle;
use crate::parser::handle::NodeHandle;
use crate::parser::tag::converts_to;
use crate::parser::tag::Node;
use crate::queryselector::iter::spec_matching;
use crate::queryselector::iter::QuerySelectorIterator;
use crate::queryselector::parser::parsed_as;
use crate::queryselector::parser::spec_selector;
use crate::queryselector::selector::Selector;
use crate::parser::markup::push_children_markup;
use crate::parser::markup::spec_children_markup;
use vstd::prelude::*;
use vstd::utf8::encode_utf8;
use vstd::std_specs::convert::FromSpecImpl;

verus! {

/// The least index from `from` on of a tag in `tags` whose id is `id`, if there is one.
pub open spec fn spec_first_with_id(tags: Seq<Node<'_>>, id: Seq<u8>, from: int) -> Option<int>
    decreases tags.len() - from,
{
    if from < 0 || from >= tags.len() {
        None
    } else if spec_has_id(tags[from], id) {
        Some(from)
    } else {
        spec_first_with_id(tags, id, from + 1)
    }
}

/// Whether `n` is a tag whose id is `id`.
pub open spec fn spec_has_id(n: Node<'_>, id: Seq<u8>) -> bool {
    n matches Node::Tag(t) && t.spec_attributes().spec_id() matches Some(b) && b@ == id
}

/// Whether `n` is a tag with `member` among the words of its class.
pub open spec fn spec_has_class(n: Node<'_>, member: Seq<u8>) -> bool {
    n matches Node::Tag(t) && t.spec_attributes().spec_is_class_member(member)
}

/// The handles of the first `n` nodes of `tags` that are tags with `member` among the words
/// of their class, in the order of the table.
pub open spec fn spec_with_class(tags: Seq<Node<'_>>, member: Seq<u8>, n: int) -> Seq<NodeHandle>
    decreases n,
{
    if n <= 0 {
        Seq::empty()
    } else if spec_has_class(tags[n - 1], member) {
        spec_with_class(tags, member, n - 1).push(NodeHandle((n - 1) as u32))
    } else {
        spec_with_class(tags, member, n - 1)
    }
}

/// A run of handles that a lookup found.
#[derive(Debug, Clone)]
pub struct HandleIter {
    handles: Vec<NodeHandle>,
    idx: usize,
}

impl HandleIter {
    /// The handles that are still to come.
    pub closed spec fn spec_rest(&self) -> Seq<NodeHandle> {
        if self.idx <= self.handles@.len() {
            self.handles@.subrange(self.idx as int, self.handles@.len() as int)
        } else {
            Seq::empty()
        }
    }

    /// A run over `handles`.
    pub fn new(handles: Vec<NodeHandle>) -> (r: Self)
        ensures
            r.spec_rest() == handles@,
    {
        let r = HandleIter { handles, idx: 0 };
        assert(r.spec_rest() =~= handles@);
        r
    }

    /// The next handle, if any is left.
    pub fn next(&mut self) -> (r: Option<NodeHandle>)
        ensures
            old(self).spec_rest().len() == 0 ==> r is None && final(self).spec_rest().len() == 0,
            old(self).spec_rest().len() > 0 ==> r == Some(old(self).spec_rest()[0])
                && final(self).spec_rest() == old(self).spec_rest().drop_first(),
    {
        if self.idx < self.handles.len() {
            let h = self.handles[self.idx];
            self.idx = self.idx + 1;
            assert(self.spec_rest() =~= old(self).spec_rest().drop_first());
            Some(h)
        } else {
            None
        }
    }

    /// The number of handles that are left.
    pub fn count(self) -> (r: usize)
        ensures
            r == self.spec_rest().len(),
    {
        if self.idx < self.handles.len() {
            self.handles.len() - self.idx
        } else {
            0
        }
    }
}

/// The result of parsing an HTML document.
///
/// It wraps the [`Parser`] that holds the nodes. Many functions of the public API take that
/// parser to resolve a [`NodeHandle`] to a [`Node`].
#[derive(Debug)]
pub struct VDom<'a> {
    /// Internal parser
    parser: Parser<'a>,
}

impl<'a> From<Parser<'a>> for VDom<'a> {
    fn from(parser: Parser<'a>) -> (r: Self)
        ensures
            r.spec_parser() == parser,
    {
        Self { parser }
    }
}

impl<'a> FromSpecImpl<Parser<'a>> for VDom<'a> {
    open spec fn obeys_from_spec() -> bool {
        true
    }

    open spec fn from_spec(parser: Parser<'a>) -> Self {
        VDom::spec_from(parser)
    }
}

impl<'a> VDom<'a> {
    /// The document that wraps `parser`.
    pub closed spec fn spec_from(parser: Parser<'a>) -> Self {
        VDom { parser }
    }

    /// The parser that the document wraps.
    pub closed spec fn spec_parser(&self) -> Parser<'a> {
        self.parser
    }

    /// Returns a reference to the underlying parser.
    pub fn parser(&self) -> (r: &Parser<'a>)
        ensures
            *r == self.spec_parser(),
    {
        &self.parser
    }

    /// Returns a mutable reference to the underlying parser.
    pub fn parser_mut(&mut self) -> (r: &mut Parser<'a>)
        ensures
            *r == old(self).spec_parser(),
            final(self).spec_parser() == *final(r),
    {
        &mut self.parser
    }

    /// Finds an element by the bytes of its `id` attribute.
    ///
    /// With the id index turned on this is a lookup in the index, which holds the tags as
    /// they were when they were parsed. Without it, the table is searched from the start.
    pub fn get_element_by_id_bytes(&self, id: &Bytes<'a>) -> (r: Option<NodeHandle>)
        requires
            self.spec_parser().wf(),
        ensures
            self.spec_parser().spec_options().spec_is_tracking_ids() ==> r == (
            if self.spec_parser().spec_ids()@.contains_key(id@) {
                Some(self.spec_parser().spec_ids()@[id@])
            } else {
                None
            }),
            !self.spec_parser().spec_options().spec_is_tracking_ids() ==> (match spec_first_with_id(
                self.spec_parser().spec_tags(),
                id@,
                0,
            ) {
                Some(i) => r == Some(NodeHandle(i as u32)),
                None => r is None,
            }),
    {
        proof {
            self.parser.lemma_wf();
        }
        if self.parser.options().is_tracking_ids() {
            match self.parser.ids().get(id.as_bytes()) {
                Some(h) => Some(*h),
                None => None,
            }
        } else {
            let tags = self.parser.tags();
            let mut i: usize = 0;
            while i < tags.len()
                invariant
                    i <= tags.len() <= u32::MAX,
                    tags@ == self.spec_parser().spec_tags(),
                    !self.spec_parser().spec_options().spec_is_tracking_ids(),
                    spec_first_with_id(tags@, id@, 0) == spec_first_with_id(tags@, id@, i as int),
                decreases tags.len() - i,
            {
                let found = match &tags[i] {
                    Node::Tag(t) => match t.attributes().id() {
                        Some(b) => b == id,
                        None => false,
                    },
                    _ => false,
                };
                if found {
                    return Some(NodeHandle::new(i as InnerNodeHandle));
                }
                i += 1;
            }
            None
        }
    }

    /// Finds an element by its `id` attribute.
    pub fn get_element_by_id<'b, S>(&'b self, id: S) -> (r: Option<NodeHandle>) where
        S: Into<Bytes<'a>>,

        requires
            self.spec_parser().wf(),
            call_requires(S::into, (id,)),
        ensures
            exists|k: Bytes<'a>|
                converts_to(id, k) && (self.spec_parser().spec_options().spec_is_tracking_ids()
                    ==> r == (if self.spec_parser().spec_ids()@.contains_key(k@) {
                    Some(self.spec_parser().spec_ids()@[k@])
                } else {
                    None
                })) && (!self.spec_parser().spec_options().spec_is_tracking_ids() ==> (
                match spec_first_with_id(self.spec_parser().spec_tags(), k@, 0) {
                    Some(i) => r == Some(NodeHandle(i as u32)),
                    None => r is None,
                })),
    {
        let k: Bytes<'a> = id.into();
        assert(converts_to(id, k));
        self.get_element_by_id_bytes(&k)
    }

    /// Returns the elements that have `id` among the words of their class.
    ///
    /// With the class index turned on these are the handles that the index holds under
    /// `id`, in the order in which the tags were closed. Without it, the table is searched,
    /// and the handles come in the order of the table.
    pub fn get_elements_by_class_name<'b>(&'b self, id: &'b str) -> (r: HandleIter)
        requires
            self.spec_parser().wf(),
        ensures
            self.spec_parser().spec_options().spec_is_tracking_classes() ==> r.spec_rest() == (
            if self.spec_parser().spec_classes()@.contains_key(encode_utf8(id@)) {
                self.spec_parser().spec_classes()@[encode_utf8(id@)]@
            } else {
                Seq::empty()
            }),
            !self.spec_parser().spec_options().spec_is_tracking_classes() ==> r.spec_rest()
                == spec_with_class(
                self.spec_parser().spec_tags(),
                encode_utf8(id@),
                self.spec_parser().spec_tags().len() as int,
            ),
    {
        proof {
            self.parser.lemma_wf();
        }
        let member = id.as_bytes();
        let mut out: Vec<NodeHandle> = Vec::new();
        if self.parser.options().is_tracking_classes() {
            match self.parser.classes().get(member) {
                Some(v) => {
                    let hs = v.as_slice();
                    let mut i: usize = 0;
                    while i < hs.len()
                        invariant
                            i <= hs.len(),
                            out@ == hs@.subrange(0, i as int),
                        decreases hs.len() - i,
                    {
                        out.push(hs[i]);
                        assert(out@ =~= hs@.subrange(0, i + 1));
                        i += 1;
                    }
                    assert(out@ =~= hs@);
                },
                None => {},
            }
        } else {
            let tags = self.parser.tags();
            let mut i: usize = 0;
            while i < tags.len()
                invariant
                    i <= tags.len() <= u32::MAX,
                    tags@ == self.spec_parser().spec_tags(),
                    out@ == spec_with_class(tags@, member@, i as int),
                decreases tags.len() - i,
            {
                let found = match &tags[i] {
                    Node::Tag(t) => t.attributes().is_class_member(member),
                    _ => false,
                };
                if found {
                    out.push(NodeHandle::new(i as InnerNodeHandle));
                }
                i += 1;
            }
        }
        HandleIter::new(out)
    }

    /// Returns the markup of the whole document, written anew from what the nodes hold now:
    /// the markup of the topmost nodes, one after the other.
    pub fn inner_html(&self) -> (r: String)
        requires
            self.spec_parser().wf(),
        ensures
            r@ == spec_children_markup(
                self.spec_parser().spec_tags(),
                self.spec_parser().spec_ast(),
                0,
                -1,
            ),
    {
        proof {
            self.parser.lemma_wf();
        }
        let mut inner_html = String::new();
        push_children_markup(&self.parser, self.parser.ast(), &mut inner_html);
        assert(Seq::<char>::empty() + spec_children_markup(
            self.spec_parser().spec_tags(),
            self.spec_parser().spec_ast(),
            0,
            -1,
        ) =~= spec_children_markup(
            self.spec_parser().spec_tags(),
            self.spec_parser().spec_ast(),
            0,
            -1,
        ));
        inner_html
    }

    /// Tries to parse the query selector and returns an iterator over the nodes of the
    /// document that match it.
    pub fn query_selector<'b>(&'b self, selector: &'b str) -> (r: Option<
        QuerySelectorIterator<'a, 'b, Self>,
    >)
        requires
            self.spec_parser().wf(),
        ensures
            match spec_selector(encode_utf8(selector@), 0) {
                Some(_) => r is Some && r.unwrap().wf() && exists|s: Selector<'b>|
                    parsed_as(
                        Some(s),
                        spec_selector(encode_utf8(selector@), 0).unwrap().1,
                        spec_selector(encode_utf8(selector@), 0),
                    ) && #[trigger] spec_matching(
                        s,
                        self,
                        &self.spec_parser(),
                        0,
                        self.spec_parser().spec_tags().len() as int,
                    ) == r.unwrap().spec_rest(),
                None => r is None,
            },
    {
        let mut p = crate::queryselector::parser::Parser::new(selector.as_bytes());
        match p.selector() {
            Some(s) => {
                let iter = QuerySelectorIterator::new(s, self.parser(), self);
                Some(iter)
            },
            None => None,
        }
    }

    /// Returns a slice of all the nodes of the document, in the order in which they start in
    /// the source.
    ///
    /// This differs from [`VDom::children`], which gives only the topmost nodes.
    pub fn nodes(&self) -> (r: &[Node<'a>])
        ensures
            r@ == self.spec_parser().spec_tags(),
    {
        self.parser.tags()
    }

    /// Returns a mutable slice of all the nodes of the document.
    pub fn nodes_mut(&mut self) -> (r: &mut [Node<'a>])
        ensures
            r@ == old(self).spec_parser().spec_tags(),
            final(self).spec_parser().spec_tags() == final(r)@,
            final(self).spec_parser().spec_same_frame(&old(self).spec_parser()),
    {
        self.parser.tags_mut()
    }

    /// Returns the topmost nodes of this document.
    pub fn children(&self) -> (r: &[NodeHandle])
        ensures
            r@ == self.spec_parser().spec_ast(),
    {
        self.parser.ast()
    }

    /// Returns the topmost nodes of this document for writing.
    pub fn children_mut(&mut self) -> (r: &mut [NodeHandle])
        ensures
            r@ == old(self).spec_parser().spec_ast(),
            final(self).spec_parser().spec_ast() == final(r)@,
            final(self).spec_parser().spec_tags() == old(self).spec_parser().spec_tags(),
    {
        self.parser.ast_mut()
    }

    /// Returns the HTML version, which a `<!DOCTYPE>` declares.
    pub fn version(&self) -> (r: Option<HTMLVersion>)
        ensures
            r == self.spec_parser().spec_version(),
    {
        self.parser.version()
    }
}

} // verus!
