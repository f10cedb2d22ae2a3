//! The selector expression and what it matches.

use crate::bytes::slice_eq;
use crate::parser::model::spec_tokens;
use crate::parser::tag::has_token;
use crate::parser::tag::Node;
use vstd::prelude::*;

verus! {

/// Whether `a` starts with `b`.
pub open spec fn spec_starts_with(a: Seq<u8>, b: Seq<u8>) -> bool {
    b.len() <= a.len() && a.subrange(0, b.len() as int) == b
}

/// Whether `a` ends with `b`.
pub open spec fn spec_ends_with(a: Seq<u8>, b: Seq<u8>) -> bool {
    b.len() <= a.len() && a.subrange(a.len() - b.len(), a.len() as int) == b
}

/// Whether `b` occurs in `a` at offset `i`.
pub open spec fn spec_occurs_at(a: Seq<u8>, b: Seq<u8>, i: int) -> bool {
    0 <= i && i + b.len() <= a.len() && a.subrange(i, i + b.len()) == b
}

/// Whether `b` occurs somewhere in `a`.
pub open spec fn spec_contains(a: Seq<u8>, b: Seq<u8>) -> bool {
    exists|i: int| spec_occurs_at(a, b, i)
}

/// Checks whether `a` starts with `b`.
pub fn starts_with(a: &[u8], b: &[u8]) -> (r: bool)
    ensures
        r == spec_starts_with(a@, b@),
{
    b.len() <= a.len() && slice_eq(vstd::slice::slice_subrange(a, 0, b.len()), b)
}

/// Checks whether `a` ends with `b`.
pub fn ends_with(a: &[u8], b: &[u8]) -> (r: bool)
    ensures
        r == spec_ends_with(a@, b@),
{
    b.len() <= a.len() && slice_eq(vstd::slice::slice_subrange(a, a.len() - b.len(), a.len()), b)
}

/// Checks whether `b` occurs somewhere in `a`.
pub fn contains(a: &[u8], b: &[u8]) -> (r: bool)
    ensures
        r == spec_contains(a@, b@),
{
    if b.len() > a.len() {
        assert forall|i: int| !spec_occurs_at(a@, b@, i) by {}
        return false;
    }
    if b.len() == 0 {
        assert(a@.subrange(0, 0) =~= b@);
        assert(spec_occurs_at(a@, b@, 0));
        return true;
    }
    let last = a.len() - b.len();
    let mut i: usize = 0;
    while i <= last
        invariant
            0 < b.len() <= a.len(),
            last == a.len() - b.len(),
            i <= last + 1,
            forall|j: int| 0 <= j < i ==> !spec_occurs_at(a@, b@, j),
        decreases last + 1 - i,
    {
        if slice_eq(vstd::slice::slice_subrange(a, i, i + b.len()), b) {
            assert(spec_occurs_at(a@, b@, i as int));
            return true;
        }
        i += 1;
    }
    assert forall|j: int| !spec_occurs_at(a@, b@, j) by {}
    false
}

/// A single query selector node.
#[derive(Debug)]
pub enum Selector<'a> {
    /// Tag selector: foo
    Tag(&'a [u8]),
    /// ID selector: #foo
    Id(&'a [u8]),
    /// Class selector: .foo
    Class(&'a [u8]),
    /// All selector: *
    All,
    /// And combinator: .foo.bar
    And(Box<Selector<'a>>, Box<Selector<'a>>),
    /// Or combinator: .foo, .bar
    Or(Box<Selector<'a>>, Box<Selector<'a>>),
    /// Descendant combinator: .foo .bar
    Descendant(Box<Selector<'a>>, Box<Selector<'a>>),
    /// Parent combinator: .foo > .bar
    Parent(Box<Selector<'a>>, Box<Selector<'a>>),
    /// Attribute: [foo]
    Attribute(&'a [u8]),
    /// Attribute with value: [foo=bar]
    AttributeValue(&'a [u8], &'a [u8]),
    /// Attribute with whitespace-separated list of values that contains a value: [foo~=bar]
    AttributeValueWhitespacedContains(&'a [u8], &'a [u8]),
    /// Attribute with value that starts with: [foo^=bar]
    AttributeValueStartsWith(&'a [u8], &'a [u8]),
    /// Attribute with value that ends with: [foo$=bar]
    AttributeValueEndsWith(&'a [u8], &'a [u8]),
    /// Attribute with value that contains: [foo*=bar]
    AttributeValueSubstring(&'a [u8], &'a [u8]),
}

/// What a selector is, apart from where its names and values are stored.
pub enum SelectorModel {
    /// Tag selector
    Tag(Seq<u8>),
    /// ID selector
    Id(Seq<u8>),
    /// Class selector
    Class(Seq<u8>),
    /// All selector
    All,
    /// And combinator
    And(Box<SelectorModel>, Box<SelectorModel>),
    /// Or combinator
    Or(Box<SelectorModel>, Box<SelectorModel>),
    /// Descendant combinator
    Descendant(Box<SelectorModel>, Box<SelectorModel>),
    /// Parent combinator
    Parent(Box<SelectorModel>, Box<SelectorModel>),
    /// Attribute
    Attribute(Seq<u8>),
    /// Attribute with value
    AttributeValue(Seq<u8>, Seq<u8>),
    /// Attribute with a whitespace-separated list of values that contains a value
    AttributeValueWhitespacedContains(Seq<u8>, Seq<u8>),
    /// Attribute with value that starts with
    AttributeValueStartsWith(Seq<u8>, Seq<u8>),
    /// Attribute with value that ends with
    AttributeValueEndsWith(Seq<u8>, Seq<u8>),
    /// Attribute with value that contains
    AttributeValueSubstring(Seq<u8>, Seq<u8>),
}

impl<'a> Selector<'a> {
    /// What the selector is, apart from where its names and values are stored.
    pub open spec fn model(&self) -> SelectorModel
        decreases self,
    {
        match self {
            Selector::Tag(a) => SelectorModel::Tag(a@),
            Selector::Id(a) => SelectorModel::Id(a@),
            Selector::Class(a) => SelectorModel::Class(a@),
            Selector::All => SelectorModel::All,
            Selector::And(a, b) => SelectorModel::And(Box::new(a.model()), Box::new(b.model())),
            Selector::Or(a, b) => SelectorModel::Or(Box::new(a.model()), Box::new(b.model())),
            Selector::Descendant(a, b) => SelectorModel::Descendant(
                Box::new(a.model()),
                Box::new(b.model()),
            ),
            Selector::Parent(a, b) => SelectorModel::Parent(
                Box::new(a.model()),
                Box::new(b.model()),
            ),
            Selector::Attribute(a) => SelectorModel::Attribute(a@),
            Selector::AttributeValue(a, b) => SelectorModel::AttributeValue(a@, b@),
            Selector::AttributeValueWhitespacedContains(a, b) => {
                SelectorModel::AttributeValueWhitespacedContains(a@, b@)
            },
            Selector::AttributeValueStartsWith(a, b) => SelectorModel::AttributeValueStartsWith(
                a@,
                b@,
            ),
            Selector::AttributeValueEndsWith(a, b) => SelectorModel::AttributeValueEndsWith(a@, b@),
            Selector::AttributeValueSubstring(a, b) => SelectorModel::AttributeValueSubstring(
                a@,
                b@,
            ),
        }
    }
}

impl<'a> Clone for Selector<'a> {
    fn clone(&self) -> (r: Self)
        ensures
            r == *self,
        decreases self,
    {
        match self {
            Selector::Tag(a) => Selector::Tag(a),
            Selector::Id(a) => Selector::Id(a),
            Selector::Class(a) => Selector::Class(a),
            Selector::All => Selector::All,
            Selector::And(a, b) => Selector::And(Box::new((**a).clone()), Box::new((**b).clone())),
            Selector::Or(a, b) => Selector::Or(Box::new((**a).clone()), Box::new((**b).clone())),
            Selector::Descendant(a, b) => Selector::Descendant(
                Box::new((**a).clone()),
                Box::new((**b).clone()),
            ),
            Selector::Parent(a, b) => Selector::Parent(
                Box::new((**a).clone()),
                Box::new((**b).clone()),
            ),
            Selector::Attribute(a) => Selector::Attribute(a),
            Selector::AttributeValue(a, b) => Selector::AttributeValue(a, b),
            Selector::AttributeValueWhitespacedContains(a, b) => {
                Selector::AttributeValueWhitespacedContains(a, b)
            },
            Selector::AttributeValueStartsWith(a, b) => Selector::AttributeValueStartsWith(a, b),
            Selector::AttributeValueEndsWith(a, b) => Selector::AttributeValueEndsWith(a, b),
            Selector::AttributeValueSubstring(a, b) => Selector::AttributeValueSubstring(a, b),
        }
    }
}

/// The value of the attribute `name` of `node`, if `node` is a tag that has that attribute
/// with a value.
pub open spec fn spec_attribute_value(node: Node<'_>, name: Seq<u8>) -> Option<Seq<u8>> {
    match node {
        Node::Tag(t) => if t@.attributes.contains_key(name) {
            t@.attributes[name]
        } else {
            None
        },
        _ => None,
    }
}

impl<'a> Selector<'a> {
    /// Whether `node` matches this selector.
    ///
    /// Only a tag matches anything but `*`. The two combinators that speak of other nodes,
    /// descendant and parent, match no node on its own. Names and values are compared byte
    /// by byte, and words are separated by ASCII whitespace.
    pub open spec fn spec_matches(&self, node: Node<'_>) -> bool
        decreases self,
    {
        match self {
            Selector::Tag(tag) => node matches Node::Tag(t) && t@.name == tag@,
            Selector::Id(id) => node matches Node::Tag(t) && t.spec_attributes().spec_id() matches Some(
                b,
            ) && b@ == id@,
            Selector::Class(class) => node matches Node::Tag(t)
                && t.spec_attributes().spec_is_class_member(class@),
            Selector::All => true,
            Selector::And(a, b) => a.spec_matches(node) && b.spec_matches(node),
            Selector::Or(a, b) => a.spec_matches(node) || b.spec_matches(node),
            Selector::Descendant(_, _) => false,
            Selector::Parent(_, _) => false,
            Selector::Attribute(attribute) => node matches Node::Tag(t)
                && t@.attributes.contains_key(attribute@),
            Selector::AttributeValue(attribute, value) => spec_attribute_value(
                node,
                attribute@,
            ) matches Some(v) && v == value@,
            Selector::AttributeValueWhitespacedContains(attribute, value) => spec_attribute_value(
                node,
                attribute@,
            ) matches Some(v) && spec_tokens(v).contains(value@),
            Selector::AttributeValueStartsWith(attribute, value) => spec_attribute_value(
                node,
                attribute@,
            ) matches Some(v) && spec_starts_with(v, value@),
            Selector::AttributeValueEndsWith(attribute, value) => spec_attribute_value(
                node,
                attribute@,
            ) matches Some(v) && spec_ends_with(v, value@),
            Selector::AttributeValueSubstring(attribute, value) => spec_attribute_value(
                node,
                attribute@,
            ) matches Some(v) && spec_contains(v, value@),
        }
    }

    /// Checks if the given node matches this selector.
    pub fn matches<'b>(&self, node: &Node<'b>) -> (r: bool)
        requires
            node.wf(),
        ensures
            r == self.spec_matches(*node),
        decreases self,
    {
        match self {
            Selector::Tag(tag) => match node.as_tag() {
                Some(t) => {
                    proof {
                        t.lemma_view();
                    }
                    slice_eq(t.name().as_bytes(), tag)
                },
                None => false,
            },
            Selector::Id(id) => match node.as_tag() {
                Some(t) => match t.attributes().id() {
                    Some(b) => slice_eq(b.as_bytes(), id),
                    None => false,
                },
                None => false,
            },
            Selector::Class(class) => match node.as_tag() {
                Some(t) => t.attributes().is_class_member(class),
                None => false,
            },
            Selector::And(a, b) => a.matches(node) && b.matches(node),
            Selector::Or(a, b) => a.matches(node) || b.matches(node),
            Selector::All => true,
            Selector::Attribute(attribute) => match attribute_of(node, attribute) {
                Some(_) => true,
                None => false,
            },
            Selector::AttributeValue(attribute, value) => match check_attribute(node, attribute) {
                Some(v) => slice_eq(v, value),
                None => false,
            },
            Selector::AttributeValueEndsWith(attribute, value) => match check_attribute(
                node,
                attribute,
            ) {
                Some(v) => ends_with(v, value),
                None => false,
            },
            Selector::AttributeValueStartsWith(attribute, value) => match check_attribute(
                node,
                attribute,
            ) {
                Some(v) => starts_with(v, value),
                None => false,
            },
            Selector::AttributeValueSubstring(attribute, value) => match check_attribute(
                node,
                attribute,
            ) {
                Some(v) => contains(v, value),
                None => false,
            },
            Selector::AttributeValueWhitespacedContains(attribute, value) => match check_attribute(
                node,
                attribute,
            ) {
                Some(v) => has_token(v, value),
                None => false,
            },
            Selector::Descendant(_, _) => false,
            Selector::Parent(_, _) => false,
        }
    }
}

/// Looks the attribute `attribute` of `node` up.
pub fn attribute_of<'n>(node: &'n Node<'_>, attribute: &'n [u8]) -> (r: Option<Option<&'n [u8]>>)
    requires
        node.wf(),
    ensures
        match *node {
            Node::Tag(t) => if t@.attributes.contains_key(attribute@) {
                match t@.attributes[attribute@] {
                    Some(v) => r is Some && r.unwrap() is Some && r.unwrap().unwrap()@ == v,
                    None => r == Some(None::<&[u8]>),
                }
            } else {
                r is None
            },
            _ => r is None,
        },
{
    match node {
        Node::Tag(t) => {
            proof {
                t.lemma_view();
            }
            t.attributes().value_of(attribute)
        },
        _ => None,
    }
}

/// The value of the attribute `attribute` of `node`, if it has that attribute with a value.
pub fn check_attribute<'n>(node: &'n Node<'_>, attribute: &'n [u8]) -> (r: Option<&'n [u8]>)
    requires
        node.wf(),
    ensures
        match spec_attribute_value(*node, attribute@) {
            Some(v) => r is Some && r.unwrap()@ == v,
            None => r is None,
        },
{
    match attribute_of(node, attribute) {
        Some(Some(v)) => Some(v),
        _ => None,
    }
}

} // verus!
