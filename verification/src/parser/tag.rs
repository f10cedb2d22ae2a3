//! Tags, their attributes and children, and the node type.

use crate::bytes::opt_view;
use crate::bytes::Bytes;
use crate::inline::hashmap::as_map;
use crate::inline::hashmap::distinct_keys;
use crate::inline::hashmap::has_key;
use crate::inline::hashmap::key_model;
use crate::inline::hashmap::key_index;
use crate::inline::hashmap::lemma_same_keys;
use crate::inline::hashmap::lemma_key_index;
use crate::inline::hashmap::InlineHashMap;
use crate::inline::vec::InlineVec;
use crate::parser::base::children_of;
use crate::parser::base::handles_below;
use crate::parser::base::nodes_ok;
use crate::parser::base::Parser;
use crate::parser::constants::is_word;
use crate::parser::constants::CLASS_ATTR;
use crate::parser::constants::ID_ATTR;
use crate::parser::handle::InnerNodeHandle;
use crate::parser::handle::NodeHandle;
use crate::bytes::from_utf8_checked;
use crate::bytes::slice_eq;
use crate::parser::model::ascii_space;
use crate::parser::model::ascii_spaces;
use crate::parser::model::lemma_scan_to;
use crate::parser::model::not_ascii_space;
use crate::parser::model::spec_tokens;
use crate::parser::model::spec_words;
use crate::parser::model::spec_words_from;
use crate::parser::model::spec_tokens_from;
use crate::simd::fallback;
use crate::simd::lemma_first_match_from;
use crate::simd::Needle;
use crate::queryselector::iter::spec_matching;
use crate::queryselector::iter::QuerySelectorIterator;
use crate::queryselector::iterable::QueryIterable;
use crate::queryselector::parser::parsed_as;
use crate::queryselector::parser::spec_selector;
use crate::queryselector::selector::Selector;
use crate::bytes::utf8_lossy;
use crate::parser::markup::cow_view;
use crate::parser::markup::spec_entries_text;
use std::borrow::Cow;
use crate::parser::markup::push_children_text;
use crate::parser::markup::push_tag_markup;
use crate::parser::markup::spec_children_text;
use crate::parser::markup::spec_inner_text;
use crate::parser::markup::spec_markup;
use crate::parser::markup::spec_node_text;
use crate::parser::markup::spec_tag_markup;
use crate::parser::markup::spec_tag_text;
use vstd::prelude::*;
use vstd::utf8::encode_utf8;
use vstd::utf8::valid_utf8;

verus! {

/// How many attributes a tag holds in place.
pub const INLINED_ATTRIBUTES: usize = 2;

/// How many children a tag holds in place.
pub const INLINED_SUBNODES: usize = 2;

/// The type of map for attributes other than `id` and `class`.
pub type RawAttributesMap<'a> = InlineHashMap<Bytes<'a>, Option<Bytes<'a>>, INLINED_ATTRIBUTES>;

/// The type of vector for children of an HTML tag.
pub type RawChildren = InlineVec<NodeHandle, INLINED_SUBNODES>;

/// The attribute name `id`.
pub open spec fn id_key() -> Seq<u8> {
    ID_ATTR@
}

/// The attribute name `class`.
pub open spec fn class_key() -> Seq<u8> {
    CLASS_ATTR@
}

/// Byte strings are compared by content, so they can key an inline map.
pub proof fn lemma_bytes_key_model<'a>()
    ensures
        key_model::<Bytes<'a>>(),
{
}

/// The attributes under their names: a name maps to `None` where the attribute has no value.
pub type AttributesView = Map<Seq<u8>, Option<Seq<u8>>>;

/// Whether `k` is what the key `key` converts to.
pub open spec fn converts_to<'a, B: Into<Bytes<'a>>>(key: B, k: Bytes<'a>) -> bool {
    call_ensures(B::into, (key,), k)
}

/// Stores all attributes of an HTML tag, with `id` and `class` kept apart from the rest.
#[derive(Debug)]
pub struct Attributes<'a> {
    /// Attributes other than `id` and `class`.
    pub(crate) raw: RawAttributesMap<'a>,
    /// The `id` attribute, if present.
    pub(crate) id: Option<Bytes<'a>>,
    /// The `class` attribute, if present.
    pub(crate) class: Option<Bytes<'a>>,
}

impl<'a> View for Attributes<'a> {
    type V = AttributesView;

    closed spec fn view(&self) -> AttributesView {
        let base = self.raw@.map_values(|v: Option<Bytes<'a>>| opt_view(v));
        let with_id = match self.id {
            Some(b) => base.insert(id_key(), Some(b@)),
            None => base,
        };
        match self.class {
            Some(b) => with_id.insert(class_key(), Some(b@)),
            None => with_id,
        }
    }
}

impl<'a> Clone for Attributes<'a> {
    /// The clone holds the same attributes, in the same order.
    fn clone(&self) -> (r: Self)
        ensures
            self.wf() ==> r.wf() && r@ == self@ && r.spec_iter() == self.spec_iter(),
    {
        let raw = self.raw.clone();
        let id = match &self.id {
            Some(b) => Some(b.clone()),
            None => None,
        };
        let class = match &self.class {
            Some(b) => Some(b.clone()),
            None => None,
        };
        let r = Attributes { raw, id, class };
        proof {
            if self.wf() {
                let a = self.raw.spec_entries();
                let b = r.raw.spec_entries();
                self.raw.lemma_entries();
                assert forall|i: int| 0 <= i < a.len() implies (#[trigger] a[i]).0@ == b[i].0@
                    && opt_view(a[i].1) == opt_view(b[i].1) by {
                    assert(cloned(a[i].0, b[i].0) && cloned(a[i].1, b[i].1));
                }
                lemma_same_keys(a, b);
                r.raw.lemma_from_entries();
                assert(spec_entries_text(a) =~= spec_entries_text(b)) by {
                    assert forall|i: int| 0 <= i < a.len() implies #[trigger] spec_entries_text(
                        a,
                    )[i] == spec_entries_text(b)[i] by {
                        assert(a[i].0@ == b[i].0@ && opt_view(a[i].1) == opt_view(b[i].1));
                    }
                }
                let f = |v: Option<Bytes<'a>>| opt_view(v);
                assert forall|k: Seq<u8>| #[trigger] self.raw@.map_values(f).contains_key(k)
                    == r.raw@.map_values(f).contains_key(k) by {
                    assert(as_map(a).contains_key(k) == as_map(b).contains_key(k));
                }
                assert forall|k: Seq<u8>| #[trigger]
                    self.raw@.map_values(f).contains_key(k) implies self.raw@.map_values(f)[k]
                    == r.raw@.map_values(f)[k] by {
                    assert(as_map(a).contains_key(k));
                    let i = key_index(a, k);
                    assert(key_index(b, k) == i);
                    assert(opt_view(a[i].1) == opt_view(b[i].1));
                }
                assert(self.raw@.map_values(f) =~= r.raw@.map_values(f));
                assert(r@ =~= self@);
            }
        }
        r
    }
}

/// What a lookup under `k` in `m` gives as views.
pub open spec fn spec_lookup(m: AttributesView, k: Seq<u8>) -> Option<Option<Seq<u8>>> {
    if m.contains_key(k) {
        Some(m[k])
    } else {
        None
    }
}

/// The value of the attribute `k` of `m`, if it is there and has one.
pub open spec fn spec_value(m: AttributesView, k: Seq<u8>) -> Option<Seq<u8>> {
    match spec_lookup(m, k) {
        Some(v) => v,
        None => None,
    }
}

/// `m` after the value of the attribute `k` was taken away: `id` and `class` go with their
/// values, any other attribute stays without one.
pub open spec fn spec_without_value(m: AttributesView, k: Seq<u8>) -> AttributesView {
    if k == id_key() || k == class_key() {
        m.remove(k)
    } else if m.contains_key(k) {
        m.insert(k, None)
    } else {
        m
    }
}

/// `m` after `v` was stored under `k`: `id` and `class` cannot be present without a value,
/// so storing none for them takes them away.
pub open spec fn spec_inserted(m: AttributesView, k: Seq<u8>, v: Option<Seq<u8>>) -> AttributesView {
    if (k == id_key() || k == class_key()) && v is None {
        m.remove(k)
    } else {
        m.insert(k, v)
    }
}

/// The views of what a lookup handed out.
pub open spec fn ref_views(r: Option<Option<&Bytes<'_>>>) -> Option<Option<Seq<u8>>> {
    match r {
        Some(Some(b)) => Some(Some(b@)),
        Some(None) => Some(None),
        None => None,
    }
}

/// The bytes of what a lookup handed out as slices.
pub open spec fn slice_views(r: Option<Option<&[u8]>>) -> Option<Option<Seq<u8>>> {
    match r {
        Some(Some(b)) => Some(Some(b@)),
        Some(None) => Some(None),
        None => None,
    }
}

/// The views of what a removal handed out.
pub open spec fn owned_views(r: Option<Option<Bytes<'_>>>) -> Option<Option<Seq<u8>>> {
    match r {
        Some(v) => Some(opt_view(v)),
        None => None,
    }
}

impl<'a> Attributes<'a> {
    /// The raw map is well-formed and holds neither `id` nor `class`.
    pub closed spec fn wf(&self) -> bool {
        &&& self.raw.wf()
        &&& !self.raw@.contains_key(id_key())
        &&& !self.raw@.contains_key(class_key())
    }

    /// The `id` attribute.
    pub closed spec fn spec_id(&self) -> Option<Bytes<'a>> {
        self.id
    }

    /// The `class` attribute.
    pub closed spec fn spec_class(&self) -> Option<Bytes<'a>> {
        self.class
    }

    /// The map of the attributes other than `id` and `class`.
    pub closed spec fn spec_raw(&self) -> RawAttributesMap<'a> {
        self.raw
    }

    /// Whether every name and every value still refers to the source.
    pub closed spec fn spec_borrowed(&self) -> bool {
        &&& self.id matches Some(b) ==> b.is_borrowed()
        &&& self.class matches Some(b) ==> b.is_borrowed()
        &&& forall|j: int|
            0 <= j < self.raw.spec_entries().len() ==> (#[trigger] self.raw.spec_entries()[j]).0.is_borrowed()
                && (self.raw.spec_entries()[j].1 matches Some(v) ==> v.is_borrowed())
    }

    /// The number of attributes.
    pub closed spec fn spec_len(&self) -> int {
        self.raw.spec_entries().len() + if self.id is Some {
            1int
        } else {
            0int
        } + if self.class is Some {
            1int
        } else {
            0int
        }
    }

    /// How the view is made up of the three parts.
    pub proof fn lemma_view(&self)
        requires
            self.wf(),
        ensures
            self@.contains_key(id_key()) == (self.spec_id() is Some),
            self.spec_id() matches Some(b) ==> self@[id_key()] == Some(b@),
            self@.contains_key(class_key()) == (self.spec_class() is Some),
            self.spec_class() matches Some(b) ==> self@[class_key()] == Some(b@),
            forall|k: Seq<u8>|
                k != id_key() && k != class_key() ==> (#[trigger] self@.contains_key(k)
                    == self.spec_raw()@.contains_key(k)),
            forall|k: Seq<u8>|
                k != id_key() && k != class_key() && self.spec_raw()@.contains_key(k)
                    ==> #[trigger] self@[k] == opt_view(self.spec_raw()@[k]),
            id_key() != class_key(),
    {
        assert(id_key().len() != class_key().len());
    }

    /// Creates an empty collection of attributes.
    pub fn new() -> (r: Self)
        ensures
            r.wf(),
            r@ == Map::<Seq<u8>, Option<Seq<u8>>>::empty(),
            r.spec_len() == 0,
            r.spec_borrowed(),
    {
        let r = Self { raw: InlineHashMap::new(), id: None, class: None };
        assert(r@ =~= Map::<Seq<u8>, Option<Seq<u8>>>::empty());
        r
    }

    /// Counts the number of attributes; the count stops at `usize::MAX`.
    pub fn len(&self) -> (r: usize)
        requires
            self.wf(),
        ensures
            r == if self.spec_len() <= usize::MAX {
                self.spec_len()
            } else {
                usize::MAX as int
            },
    {
        let mut n = self.raw.len();
        if self.id.is_some() && n < usize::MAX {
            n += 1;
        }
        if self.class.is_some() && n < usize::MAX {
            n += 1;
        }
        n
    }

    /// Checks whether this collection of attributes is empty.
    pub fn is_empty(&self) -> (r: bool)
        requires
            self.wf(),
        ensures
            r == (self.spec_len() == 0),
    {
        self.len() == 0
    }

    /// Looks an attribute up by the bytes of its name.
    pub fn get_slice(&self, key: &[u8]) -> (r: Option<Option<&Bytes<'a>>>)
        requires
            self.wf(),
        ensures
            ref_views(r) == spec_lookup(self@, key@),
    {
        proof {
            self.lemma_view();
            self.raw.lemma_entries();
        }
        if is_word(key, ID_ATTR) {
            match &self.id {
                Some(b) => Some(Some(b)),
                None => None,
            }
        } else if is_word(key, CLASS_ATTR) {
            match &self.class {
                Some(b) => Some(Some(b)),
                None => None,
            }
        } else {
            let es = self.raw.entries();
            let mut i: usize = 0;
            while i < es.len()
                invariant
                    i <= es.len(),
                    self.wf(),
                    es@ == self.raw.spec_entries(),
                    distinct_keys(es@),
                    self.raw@ == as_map(es@),
                    key@ != id_key(),
                    key@ != class_key(),
                    forall|j: int| 0 <= j < i ==> (#[trigger] es@[j]).0@ != key@,
                decreases es.len() - i,
            {
                if slice_eq(es[i].0.as_bytes(), key) {
                    proof {
                        lemma_key_index(es@, i as int);
                        self.lemma_view();
                    }
                    return match &es[i].1 {
                        Some(b) => Some(Some(b)),
                        None => Some(None),
                    };
                }
                i += 1;
            }
            proof {
                assert(!has_key(es@, key@));
                self.lemma_view();
            }
            None
        }
    }

    /// Looks an attribute up by its name.
    pub fn get_bytes(&self, key: &Bytes<'a>) -> (r: Option<Option<&Bytes<'a>>>)
        requires
            self.wf(),
        ensures
            ref_views(r) == spec_lookup(self@, key@),
    {
        proof {
            self.lemma_view();
            lemma_bytes_key_model();
        }
        if is_word(key.as_bytes(), ID_ATTR) {
            match &self.id {
                Some(b) => Some(Some(b)),
                None => None,
            }
        } else if is_word(key.as_bytes(), CLASS_ATTR) {
            match &self.class {
                Some(b) => Some(Some(b)),
                None => None,
            }
        } else {
            match self.raw.get(key) {
                Some(v) => Some(v.as_ref()),
                None => None,
            }
        }
    }

    /// Looks the value of an attribute up by the bytes of its name, which need not live as
    /// long as the source does.
    pub fn value_of<'s>(&'s self, key: &'s [u8]) -> (r: Option<Option<&'s [u8]>>)
        requires
            self.wf(),
        ensures
            slice_views(r) == spec_lookup(self@, key@),
    {
        if key.len() > crate::bytes::MAX_LEN {
            return match self.get_slice(key) {
                Some(Some(b)) => Some(Some(b.as_bytes())),
                Some(None) => Some(None),
                None => None,
            };
        }
        let name = Bytes::from(key);
        match self.get_bytes(&name) {
            Some(Some(b)) => Some(Some(b.as_bytes())),
            Some(None) => Some(None),
            None => None,
        }
    }

    /// Checks whether this collection holds an attribute of the given name and returns its
    /// value.
    ///
    /// An attribute that is present without a value gives `Some(None)`.
    pub fn get<B>(&self, key: B) -> (r: Option<Option<&Bytes<'a>>>) where B: Into<Bytes<'a>>
        requires
            self.wf(),
            call_requires(B::into, (key,)),
        ensures
            exists|k: Bytes<'a>| converts_to(key, k) && ref_views(r) == spec_lookup(self@, k@),
    {
        let k: Bytes<'a> = key.into();
        assert(converts_to(key, k));
        self.get_bytes(&k)
    }

    /// Checks whether this collection holds an attribute of the given name.
    pub fn contains<B>(&self, key: B) -> (r: bool) where B: Into<Bytes<'a>>
        requires
            self.wf(),
            call_requires(B::into, (key,)),
        ensures
            exists|k: Bytes<'a>| converts_to(key, k) && r == self@.contains_key(k@),
    {
        self.get(key).is_some()
    }

    /// Removes an attribute from this collection and returns its value.
    ///
    /// As with [`Attributes::get`], the outer `Option` is `None` if there was no such
    /// attribute, and the inner one is `None` if it had no value.
    pub fn remove<B>(&mut self, key: B) -> (r: Option<Option<Bytes<'a>>>) where B: Into<Bytes<'a>>
        requires
            old(self).wf(),
            call_requires(B::into, (key,)),
        ensures
            final(self).wf(),
            exists|k: Bytes<'a>|
                converts_to(key, k) && owned_views(r) == spec_lookup(old(self)@, k@)
                    && final(self)@ == old(self)@.remove(k@),
    {
        let k: Bytes<'a> = key.into();
        assert(converts_to(key, k));
        proof {
            self.lemma_view();
            lemma_bytes_key_model();
        }
        let r = if is_word(k.as_bytes(), ID_ATTR) {
            match self.id.take() {
                Some(b) => Some(Some(b)),
                None => None,
            }
        } else if is_word(k.as_bytes(), CLASS_ATTR) {
            match self.class.take() {
                Some(b) => Some(Some(b)),
                None => None,
            }
        } else {
            self.raw.remove(&k)
        };
        proof {
            self.lemma_view();
            let after = self@;
            let want = old(self)@.remove(k@);
            assert forall|x: Seq<u8>| after.contains_key(x) == want.contains_key(x) by {}
            assert forall|x: Seq<u8>| after.contains_key(x) implies after[x] == want[x] by {}
            assert(after =~= want);
        }
        r
    }

    /// Removes the value of an attribute in this collection and returns it; the attribute
    /// itself stays, without a value, unless it is `id` or `class`, which are removed.
    pub fn remove_value<B>(&mut self, key: B) -> (r: Option<Bytes<'a>>) where B: Into<Bytes<'a>>
        requires
            old(self).wf(),
            call_requires(B::into, (key,)),
        ensures
            final(self).wf(),
            exists|k: Bytes<'a>|
                converts_to(key, k) && opt_view(r) == spec_value(old(self)@, k@) && final(self)@
                    == spec_without_value(old(self)@, k@),
    {
        let k: Bytes<'a> = key.into();
        assert(converts_to(key, k));
        proof {
            self.lemma_view();
            lemma_bytes_key_model();
        }
        let r = if is_word(k.as_bytes(), ID_ATTR) {
            self.id.take()
        } else if is_word(k.as_bytes(), CLASS_ATTR) {
            self.class.take()
        } else {
            match self.raw.get_mut(&k) {
                Some(v) => v.take(),
                None => None,
            }
        };
        proof {
            self.lemma_view();
            let after = self@;
            let want = spec_without_value(old(self)@, k@);
            assert forall|x: Seq<u8>| after.contains_key(x) == want.contains_key(x) by {}
            assert forall|x: Seq<u8>| after.contains_key(x) implies after[x] == want[x] by {}
            assert(after =~= want);
        }
        r
    }

    /// Looks an attribute up by its name and hands out its value for writing.
    ///
    /// An attribute that is present without a value gives `Some(None)`.
    pub fn get_mut<B>(&mut self, key: B) -> (r: Option<Option<&mut Bytes<'a>>>) where
        B: Into<Bytes<'a>>,

        requires
            old(self).wf(),
            call_requires(B::into, (key,)),
        ensures
            final(self).wf(),
            exists|k: Bytes<'a>|
                converts_to(key, k) && (match spec_lookup(old(self)@, k@) {
                    Some(Some(v)) => r is Some && r.unwrap() is Some && r.unwrap().unwrap()@ == v
                        && final(self)@ == old(self)@.insert(
                        k@,
                        Some(final(r.unwrap().unwrap())@),
                    ),
                    Some(None) => r is Some && r.unwrap() is None && final(self)@ == old(self)@,
                    None => r is None && final(self)@ == old(self)@,
                }),
    {
        let k: Bytes<'a> = key.into();
        assert(converts_to(key, k));
        proof {
            self.lemma_view();
            lemma_bytes_key_model();
        }
        let ghost before = *self;
        if is_word(k.as_bytes(), ID_ATTR) {
            match &mut self.id {
                Some(b) => {
                    proof {
                        let after = Attributes {
                            id: Some(*final(b)),
                            raw: before.raw,
                            class: before.class,
                        };
                        after.lemma_view();
                        assert(after@ =~= before@.insert(k@, Some(final(b)@)));
                    }
                    Some(Some(b))
                },
                None => None,
            }
        } else if is_word(k.as_bytes(), CLASS_ATTR) {
            match &mut self.class {
                Some(b) => {
                    proof {
                        let after = Attributes {
                            class: Some(*final(b)),
                            raw: before.raw,
                            id: before.id,
                        };
                        after.lemma_view();
                        assert(after@ =~= before@.insert(k@, Some(final(b)@)));
                    }
                    Some(Some(b))
                },
                None => None,
            }
        } else {
            match self.raw.get_mut(&k) {
                Some(v) => match v {
                    Some(b) => {
                        proof {
                            let map = before.raw@.insert(k@, Some(*final(b)));
                            let want = before@.insert(k@, Some(final(b)@));
                            let got = map.map_values(|v: Option<Bytes<'a>>| opt_view(v));
                            let with_id = match before.id {
                                Some(i) => got.insert(id_key(), Some(i@)),
                                None => got,
                            };
                            let all = match before.class {
                                Some(c) => with_id.insert(class_key(), Some(c@)),
                                None => with_id,
                            };
                            assert(all =~= want);
                        }
                        Some(Some(b))
                    },
                    None => {
                        proof {
                            assert(before.raw@.insert(k@, None) =~= before.raw@);
                        }
                        Some(None)
                    },
                },
                None => None,
            }
        }
    }

    /// Stores `value` under the name `key`, replacing what was there.
    ///
    /// `id` and `class` are only ever present with a value: storing none for one of them
    /// removes it.
    pub fn insert_bytes(&mut self, key: Bytes<'a>, value: Option<Bytes<'a>>)
        requires
            old(self).wf(),
        ensures
            final(self).wf(),
            final(self)@ == spec_inserted(old(self)@, key@, opt_view(value)),
            old(self).spec_borrowed() && key.is_borrowed() && (value matches Some(v)
                ==> v.is_borrowed()) ==> final(self).spec_borrowed(),
    {
        proof {
            self.lemma_view();
            lemma_bytes_key_model();
        }
        if is_word(key.as_bytes(), ID_ATTR) {
            self.id = value;
        } else if is_word(key.as_bytes(), CLASS_ATTR) {
            self.class = value;
        } else {
            self.raw.insert(key, value);
        }
        proof {
            self.lemma_view();
            let after = self@;
            let want = spec_inserted(old(self)@, key@, opt_view(value));
            assert forall|x: Seq<u8>| after.contains_key(x) == want.contains_key(x) by {}
            assert forall|x: Seq<u8>| after.contains_key(x) implies after[x] == want[x] by {}
            assert(after =~= want);
        }
    }

    /// Inserts a new attribute into this collection, replacing one of the same name.
    ///
    /// `id` and `class` are only ever present with a value: storing none for one of them
    /// removes it.
    pub fn insert<K, V>(&mut self, key: K, value: Option<V>) where
        K: Into<Bytes<'a>>,
        V: Into<Bytes<'a>>,

        requires
            old(self).wf(),
            call_requires(K::into, (key,)),
            value matches Some(v) ==> call_requires(V::into, (v,)),
        ensures
            final(self).wf(),
            exists|k: Bytes<'a>, w: Option<Bytes<'a>>|
                converts_to(key, k) && (match value {
                    Some(v) => w is Some && converts_to(v, w.unwrap()),
                    None => w is None,
                }) && final(self)@ == spec_inserted(old(self)@, k@, opt_view(w)),
    {
        let k: Bytes<'a> = key.into();
        let w: Option<Bytes<'a>> = match value {
            Some(v) => {
                let b: Bytes<'a> = v.into();
                assert(converts_to(v, b));
                Some(b)
            },
            None => None,
        };
        assert(converts_to(key, k) && (match value {
            Some(v) => w is Some && converts_to(v, w.unwrap()),
            None => w is None,
        }));
        self.insert_bytes(k, w)
    }

    /// Whether `member` is one of the whitespace-separated words of the class, which has to be
    /// valid UTF-8 for any word to count.
    pub open spec fn spec_is_class_member(&self, member: Seq<u8>) -> bool {
        match self.spec_class() {
            Some(c) => valid_utf8(c@) && spec_tokens(c@).contains(member),
            None => false,
        }
    }

    /// Checks whether a given string is in the class names list.
    pub fn is_class_member(&self, member: &[u8]) -> (r: bool)
        ensures
            r == self.spec_is_class_member(member@),
    {
        match &self.class {
            Some(c) => {
                if from_utf8_checked(c.as_bytes()).is_some() {
                    has_token(c.as_bytes(), member)
                } else {
                    false
                }
            },
            None => false,
        }
    }

    /// The attributes as text: those of the raw map in the order in which it stores them,
    /// then `id`, then `class`.
    pub closed spec fn spec_iter(&self) -> Seq<(Seq<char>, Option<Seq<char>>)> {
        let raw = spec_entries_text(self.raw.spec_entries());
        let with_id = match self.id {
            Some(b) => raw.push(("id"@, Some(utf8_lossy(b@)))),
            None => raw,
        };
        match self.class {
            Some(b) => with_id.push(("class"@, Some(utf8_lossy(b@)))),
            None => with_id,
        }
    }

    /// How `spec_iter` is made up of the three parts.
    pub proof fn lemma_iter(&self)
        ensures
            self.spec_iter() == ({
                let raw = spec_entries_text(self.spec_raw().spec_entries());
                let with_id = match self.spec_id() {
                    Some(b) => raw.push(("id"@, Some(utf8_lossy(b@)))),
                    None => raw,
                };
                match self.spec_class() {
                    Some(b) => with_id.push(("class"@, Some(utf8_lossy(b@)))),
                    None => with_id,
                }
            }),
    {
    }

    /// Returns the attributes of this tag as pairs of name and value, decoded as UTF-8.
    pub fn iter(&self) -> (r: Vec<(Cow<'_, str>, Option<Cow<'_, str>>)>)
        requires
            self.wf(),
        ensures
            r@.len() == self.spec_iter().len(),
            forall|j: int|
                0 <= j < r@.len() ==> (#[trigger] r@[j]).0@ == self.spec_iter()[j].0 && cow_view(
                    r@[j].1,
                ) == self.spec_iter()[j].1,
    {
        let es = self.raw.entries();
        let mut out: Vec<(Cow<'_, str>, Option<Cow<'_, str>>)> = Vec::new();
        let ghost texts = spec_entries_text(es@);
        let mut i: usize = 0;
        while i < es.len()
            invariant
                i <= es.len(),
                texts == spec_entries_text(es@),
                out@.len() == i,
                forall|j: int|
                    0 <= j < i ==> (#[trigger] out@[j]).0@ == texts[j].0 && cow_view(out@[j].1)
                        == texts[j].1,
            decreases es.len() - i,
        {
            let k = es[i].0.as_utf8_str();
            let v = match &es[i].1 {
                Some(b) => Some(b.as_utf8_str()),
                None => None,
            };
            out.push((k, v));
            i += 1;
        }
        match &self.id {
            Some(b) => {
                out.push((Cow::Borrowed("id"), Some(b.as_utf8_str())));
            },
            None => {},
        }
        match &self.class {
            Some(b) => {
                out.push((Cow::Borrowed("class"), Some(b.as_utf8_str())));
            },
            None => {},
        }
        out
    }

    /// Returns the words of the class, if there is a class and it is valid UTF-8.
    pub fn class_iter(&self) -> (r: Option<Vec<&str>>)
        ensures
            r is Some <==> (self.spec_class() matches Some(c) && valid_utf8(c@)),
            r matches Some(v) ==> spec_encoded(v@) == spec_words(self.spec_class().unwrap()@),
    {
        match &self.class {
            Some(c) => match c.try_as_utf8_str() {
                Some(_) => Some(class_words(c.as_bytes())),
                None => None,
            },
            None => None,
        }
    }

    /// Returns the `id` attribute of this HTML tag, if present.
    pub fn id(&self) -> (r: Option<&Bytes<'a>>)
        ensures
            r == match self.spec_id() {
                Some(b) => Some(&b),
                None => None,
            },
    {
        self.id.as_ref()
    }

    /// Returns the `class` attribute of this HTML tag, if present.
    pub fn class(&self) -> (r: Option<&Bytes<'a>>)
        ensures
            r == match self.spec_class() {
                Some(b) => Some(&b),
                None => None,
            },
    {
        self.class.as_ref()
    }

    /// Returns the underlying map of the attributes other than `id` and `class`.
    ///
    /// The map does not hold every attribute; prefer the methods of `Attributes`, such as
    /// [`Attributes::get`], to look an attribute up by its name.
    pub fn unstable_raw(&self) -> (r: &RawAttributesMap<'a>)
        ensures
            *r == self.spec_raw(),
    {
        &self.raw
    }
}

/// Checks whether `member` is one of the whitespace-separated words of `bytes`.
pub fn has_token(bytes: &[u8], member: &[u8]) -> (r: bool)
    ensures
        r == spec_tokens(bytes@).contains(member@),
{
    let spaces: [u8; 5] = [0x20, 0x09, 0x0a, 0x0c, 0x0d];
    let set = spaces.as_slice();
    proof {
        assert(set@ =~= ascii_spaces());
        assert(Needle::AnyOf(set).pred() =~= ascii_space());
        assert(Needle::NoneOf(set).pred() =~= not_ascii_space());
    }
    let mut pos: usize = 0;
    loop
        invariant
            set@ == ascii_spaces(),
            Needle::AnyOf(set).pred() == ascii_space(),
            Needle::NoneOf(set).pred() == not_ascii_space(),
            pos <= bytes.len(),
            spec_tokens(bytes@).contains(member@) == spec_tokens_from(bytes@, pos as int).contains(
                member@,
            ),
        decreases bytes.len() - pos,
    {
        proof {
            lemma_scan_to(bytes@, not_ascii_space(), pos as int);
        }
        let a = match fallback::scan_from(bytes, pos, Needle::NoneOf(set)) {
            Some(a) => a,
            None => {
                assert(spec_tokens_from(bytes@, pos as int) =~= Seq::empty());
                return false;
            },
        };
        proof {
            lemma_first_match_from(bytes@, not_ascii_space(), pos as int);
            lemma_scan_to(bytes@, ascii_space(), a as int);
            lemma_first_match_from(bytes@, ascii_space(), a as int);
            assert(not_ascii_space()(bytes@[a as int]));
            assert(!ascii_space()(bytes@[a as int]));
        }
        let b = match fallback::scan_from(bytes, a, Needle::AnyOf(set)) {
            Some(b) => b,
            None => bytes.len(),
        };
        let ghost rest = spec_tokens_from(bytes@, b as int);
        let ghost token = bytes@.subrange(a as int, b as int);
        proof {
            let all = seq![token] + rest;
            assert(spec_tokens_from(bytes@, pos as int) == all);
            assert(all[0] == token);
            assert forall|j: int| 0 <= j < rest.len() implies all[j + 1] == rest[j] by {}
            if rest.contains(member@) {
                let j = choose|j: int| 0 <= j < rest.len() && rest[j] == member@;
                assert(all[j + 1] == member@);
            }
            if all.contains(member@) {
                let j = choose|j: int| 0 <= j < all.len() && all[j] == member@;
                if j > 0 {
                    assert(rest[j - 1] == member@);
                }
            }
        }
        if slice_eq(vstd::slice::slice_subrange(bytes, a, b), member) {
            return true;
        }
        pos = b;
    }
}

/// The bytes of each of the strings `words`.
pub open spec fn spec_encoded(words: Seq<&str>) -> Seq<Seq<u8>> {
    Seq::new(words.len(), |i: int| encode_utf8(words[i]@))
}

/// The whitespace-separated words of `bytes` that are valid UTF-8, as strings.
pub fn class_words<'c>(bytes: &'c [u8]) -> (r: Vec<&'c str>)
    ensures
        spec_encoded(r@) == spec_words(bytes@),
{
    let spaces: [u8; 5] = [0x20, 0x09, 0x0a, 0x0c, 0x0d];
    let set = spaces.as_slice();
    proof {
        assert(set@ =~= ascii_spaces());
        assert(Needle::AnyOf(set).pred() =~= ascii_space());
        assert(Needle::NoneOf(set).pred() =~= not_ascii_space());
    }
    let mut out: Vec<&'c str> = Vec::new();
    let mut pos: usize = 0;
    proof {
        assert(spec_encoded(out@) + spec_words(bytes@) =~= spec_words(bytes@));
    }
    loop
        invariant
            set@ == ascii_spaces(),
            Needle::AnyOf(set).pred() == ascii_space(),
            Needle::NoneOf(set).pred() == not_ascii_space(),
            pos <= bytes.len(),
            spec_encoded(out@) + spec_words_from(bytes@, pos as int) == spec_words(bytes@),
        decreases bytes.len() - pos,
    {
        proof {
            lemma_scan_to(bytes@, not_ascii_space(), pos as int);
        }
        let a = match fallback::scan_from(bytes, pos, Needle::NoneOf(set)) {
            Some(a) => a,
            None => {
                proof {
                    assert(spec_encoded(out@) + Seq::<Seq<u8>>::empty() =~= spec_encoded(out@));
                }
                return out;
            },
        };
        proof {
            lemma_first_match_from(bytes@, not_ascii_space(), pos as int);
            lemma_scan_to(bytes@, ascii_space(), a as int);
            lemma_first_match_from(bytes@, ascii_space(), a as int);
            assert(not_ascii_space()(bytes@[a as int]));
            assert(!ascii_space()(bytes@[a as int]));
        }
        let b = match fallback::scan_from(bytes, a, Needle::AnyOf(set)) {
            Some(b) => b,
            None => bytes.len(),
        };
        let ghost before = out@;
        let ghost rest = spec_words_from(bytes@, b as int);
        let ghost token = bytes@.subrange(a as int, b as int);
        match from_utf8_checked(vstd::slice::slice_subrange(bytes, a, b)) {
            Some(word) => {
                out.push(word);
                proof {
                    assert(spec_encoded(out@) =~= spec_encoded(before).push(token));
                    assert(spec_encoded(before).push(token) + rest =~= spec_encoded(before) + (
                    seq![token] + rest));
                }
            },
            None => {},
        }
        pos = b;
    }
}

/// Whether `f` may have returned `true` for the node at `h`.
pub open spec fn accepted<'a, F: Fn(&Node<'a>) -> bool>(
    tags: Seq<Node<'a>>,
    h: NodeHandle,
    f: &F,
) -> bool {
    h.0 < tags.len() && call_ensures(f, (&tags[h.0 as int],), true)
}

/// Whether `f` may have returned `false` for the node at `h`.
pub open spec fn rejected<'a, F: Fn(&Node<'a>) -> bool>(
    tags: Seq<Node<'a>>,
    h: NodeHandle,
    f: &F,
) -> bool {
    h.0 < tags.len() && call_ensures(f, (&tags[h.0 as int],), false)
}

/// Whether `f` may have returned `false` for each of the first `k` of the nodes `cs`.
pub open spec fn rejected_before<'a, F: Fn(&Node<'a>) -> bool>(
    tags: Seq<Node<'a>>,
    cs: Seq<NodeHandle>,
    k: int,
    f: &F,
) -> bool {
    forall|j: int| 0 <= j < k && j < cs.len() ==> rejected(tags, #[trigger] cs[j], f)
}

/// Whether `f` may have returned `false` for each of the nodes `cs` from the `k`-th on and
/// for every node below them, where `cs` stand behind `lo` in the table.
pub open spec fn rejected_children<'a, F: Fn(&Node<'a>) -> bool>(
    tags: Seq<Node<'a>>,
    cs: Seq<NodeHandle>,
    k: int,
    lo: int,
    f: &F,
) -> bool
    decreases tags.len() - lo, cs.len() - k + 1,
{
    if k < 0 || k >= cs.len() || lo < -1 {
        true
    } else {
        let c = cs[k];
        &&& rejected(tags, c, f)
        &&& lo < c.0 < tags.len() ==> rejected_below(tags, c.0 as int, f)
        &&& rejected_children(tags, cs, k + 1, lo, f)
    }
}

/// Whether `f` may have returned `false` for every node below the node at index `i`.
pub open spec fn rejected_below<'a, F: Fn(&Node<'a>) -> bool>(
    tags: Seq<Node<'a>>,
    i: int,
    f: &F,
) -> bool
    decreases tags.len() - i + 1, 0int,
{
    if 0 <= i < tags.len() {
        rejected_children(tags, children_of(tags[i]), 0, i, f)
    } else {
        true
    }
}

/// Searches the nodes below the node at index `i`, each node before what is below it, for
/// one for which `f` returns `true`.
pub fn find_below<'a, F>(parser: &Parser<'a>, i: usize, f: &F) -> (r: Option<NodeHandle>) where
    F: Fn(&Node<'a>) -> bool,

    requires
        parser.wf(),
        i < parser.spec_tags().len(),
        forall|n: &Node<'a>| #[trigger] call_requires(f, (n,)),
    ensures
        match r {
            Some(h) => accepted(parser.spec_tags(), h, f) && i < h.0,
            None => rejected_below(parser.spec_tags(), i as int, f),
        },
    decreases parser.spec_tags().len() - i,
{
    let tags = parser.tags();
    proof {
        parser.lemma_wf();
    }
    match &tags[i] {
        Node::Tag(t) => {
            proof {
                t.lemma_view();
            }
            let cs = t._children.as_slice();
            let mut k: usize = 0;
            while k < cs.len()
                invariant
                    k <= cs.len(),
                    parser.wf(),
                    tags@ == parser.spec_tags(),
                    nodes_ok(tags@),
                    i < tags@.len(),
                    cs@ == children_of(tags@[i as int]),
                    forall|n: &Node<'a>| #[trigger] call_requires(f, (n,)),
                    rejected_children(tags@, cs@, 0, i as int, f) == rejected_children(
                        tags@,
                        cs@,
                        k as int,
                        i as int,
                        f,
                    ),
                decreases cs.len() - k,
            {
                let id = cs[k];
                proof {
                    assert(i < children_of(tags@[i as int])[k as int].0 < tags@.len());
                }
                let c = id.get_inner() as usize;
                if f(&tags[c]) {
                    return Some(id);
                }
                let sub = find_below(parser, c, f);
                if sub.is_some() {
                    return sub;
                }
                k += 1;
            }
            None
        },
        _ => None,
    }
}

/// What a tag is, apart from how it is stored.
pub struct TagModel {
    /// The name of the tag.
    pub name: Seq<u8>,
    /// The attributes.
    pub attributes: AttributesView,
    /// The direct children, in document order.
    pub children: Seq<NodeHandle>,
    /// The offset in the source at which the tag starts.
    pub start: int,
    /// The part of the source that the tag spans.
    pub raw: Seq<u8>,
}

/// What a node is, apart from how it is stored.
pub enum NodeModel {
    /// A tag.
    Tag(TagModel),
    /// Text between tags.
    Raw(Seq<u8>),
    /// A comment, with its delimiters.
    Comment(Seq<u8>),
}

/// Represents a single HTML element.
#[derive(Debug)]
pub struct HTMLTag<'a> {
    pub(crate) _name: Bytes<'a>,
    pub(crate) _attributes: Attributes<'a>,
    pub(crate) _children: RawChildren,
    pub(crate) _raw: Bytes<'a>,
    pub(crate) _start: usize,
}

impl<'a> View for HTMLTag<'a> {
    type V = TagModel;

    closed spec fn view(&self) -> TagModel {
        TagModel {
            name: self._name@,
            attributes: self._attributes@,
            children: self._children@,
            start: self._start as int,
            raw: self._raw@,
        }
    }
}

impl<'a> Clone for HTMLTag<'a> {
    /// The clone holds the same name, attributes, children and span.
    fn clone(&self) -> (r: Self)
        ensures
            self.wf() ==> r.wf() && r@ == self@,
    {
        let r = HTMLTag {
            _name: self._name.clone(),
            _attributes: self._attributes.clone(),
            _children: self._children.clone(),
            _raw: self._raw.clone(),
            _start: self._start,
        };
        proof {
            if self.wf() {
                assert(r._children@ =~= self._children@);
            }
        }
        r
    }
}

impl<'a> HTMLTag<'a> {
    /// The attributes and the children are well-formed.
    pub closed spec fn wf(&self) -> bool {
        &&& self._attributes.wf()
        &&& self._children.wf()
    }

    /// The name.
    pub closed spec fn spec_name(&self) -> Bytes<'a> {
        self._name
    }

    /// The attributes.
    pub closed spec fn spec_attributes(&self) -> Attributes<'a> {
        self._attributes
    }

    /// The children.
    pub closed spec fn spec_children(&self) -> RawChildren {
        self._children
    }

    /// The part of the source that the tag spans.
    pub closed spec fn spec_raw(&self) -> Bytes<'a> {
        self._raw
    }

    /// The offset in the source at which the tag starts.
    pub closed spec fn spec_start(&self) -> usize {
        self._start
    }

    /// How the view is made up of the parts.
    pub proof fn lemma_view(&self)
        ensures
            self@.name == self.spec_name()@,
            self@.attributes == self.spec_attributes()@,
            self@.children == self.spec_children()@,
            self@.start == self.spec_start(),
            self@.raw == self.spec_raw()@,
            self.wf() == (self.spec_attributes().wf() && self.spec_children().wf()),
    {
    }

    /// Creates a new tag that spans `raw`, which starts at offset `start` of the source.
    pub fn new(
        name: Bytes<'a>,
        attr: Attributes<'a>,
        children: RawChildren,
        raw: Bytes<'a>,
        start: usize,
    ) -> (r: Self)
        ensures
            r.spec_name() == name,
            r.spec_attributes() == attr,
            r.spec_children() == children,
            r.spec_raw() == raw,
            r.spec_start() == start,
    {
        Self { _name: name, _attributes: attr, _children: children, _raw: raw, _start: start }
    }

    /// Appends `h` to the children.
    pub(crate) fn push_child(&mut self, h: NodeHandle)
        requires
            old(self).wf(),
        ensures
            final(self).wf(),
            final(self).spec_name() == old(self).spec_name(),
            final(self).spec_attributes() == old(self).spec_attributes(),
            final(self).spec_raw() == old(self).spec_raw(),
            final(self).spec_start() == old(self).spec_start(),
            final(self).spec_children()@ == old(self).spec_children()@.push(h),
            final(self)@ == (TagModel { children: old(self)@.children.push(h), ..old(self)@ }),
    {
        self._children.push(h);
    }

    /// Replaces the span by `raw`.
    pub(crate) fn set_raw(&mut self, raw: Bytes<'a>)
        ensures
            final(self).wf() == old(self).wf(),
            final(self).spec_name() == old(self).spec_name(),
            final(self).spec_attributes() == old(self).spec_attributes(),
            final(self).spec_children() == old(self).spec_children(),
            final(self).spec_start() == old(self).spec_start(),
            final(self).spec_raw() == raw,
            final(self)@ == (TagModel { raw: raw@, ..old(self)@ }),
    {
        self._raw = raw;
    }

    /// Returns a wrapper around the children of this HTML tag.
    pub fn children(&self) -> (r: Children<'a, '_>)
        ensures
            *r.spec_tag() == *self,
    {
        Children(self)
    }

    /// Returns a mutable wrapper around the children of this HTML tag.
    pub fn children_mut(&mut self) -> (r: ChildrenMut<'a, '_>)
        ensures
            *r.0 == *old(self),
            *final(self) == *final(r.0),
    {
        ChildrenMut(self)
    }

    /// Returns the name of this HTML tag.
    pub fn name(&self) -> (r: &Bytes<'a>)
        ensures
            *r == self.spec_name(),
    {
        &self._name
    }

    /// Returns a mutable reference to the name of this HTML tag.
    pub fn name_mut(&mut self) -> (r: &mut Bytes<'a>)
        ensures
            *r == old(self).spec_name(),
            final(self).spec_name() == *final(r),
            final(self).spec_attributes() == old(self).spec_attributes(),
            final(self).spec_children() == old(self).spec_children(),
            final(self).spec_raw() == old(self).spec_raw(),
            final(self).spec_start() == old(self).spec_start(),
    {
        &mut self._name
    }

    /// Returns attributes of this HTML tag.
    pub fn attributes(&self) -> (r: &Attributes<'a>)
        ensures
            *r == self.spec_attributes(),
    {
        &self._attributes
    }

    /// Returns a mutable reference to the attributes of this HTML tag.
    pub fn attributes_mut(&mut self) -> (r: &mut Attributes<'a>)
        ensures
            *r == old(self).spec_attributes(),
            final(self).spec_attributes() == *final(r),
            final(self).spec_name() == old(self).spec_name(),
            final(self).spec_children() == old(self).spec_children(),
            final(self).spec_raw() == old(self).spec_raw(),
            final(self).spec_start() == old(self).spec_start(),
    {
        &mut self._attributes
    }

    /// Returns the offset in the source at which this tag starts.
    pub fn start_offset(&self) -> (r: usize)
        ensures
            r == self.spec_start(),
    {
        self._start
    }

    /// Returns the markup of this tag: the opening tag with the attributes, the markup of the
    /// children and the closing tag, written anew from what the tag holds now.
    ///
    /// The attributes come in the order in which they are stored, which need not be that of
    /// the source, and blanks within the tag are not kept. A void element is written as its
    /// opening tag alone.
    pub fn outer_html<'p>(&'p self, parser: &'p Parser<'a>) -> (r: String)
        requires
            parser.wf(),
            self.wf(),
            handles_below(self.spec_children()@, parser.spec_tags().len() as int),
        ensures
            r@ == spec_tag_markup(parser.spec_tags(), *self),
    {
        let mut out = String::new();
        push_tag_markup(parser, self, &mut out);
        assert(Seq::<char>::empty() + spec_tag_markup(parser.spec_tags(), *self) =~= spec_tag_markup(
            parser.spec_tags(),
            *self,
        ));
        out
    }

    /// Returns the markup of this tag, written anew from what the tag holds now.
    ///
    /// This is the markup of the tag itself, with its attributes and children, as
    /// [`HTMLTag::outer_html`] gives it.
    pub fn inner_html<'p>(&'p self, parser: &'p Parser<'a>) -> (r: String)
        requires
            parser.wf(),
            self.wf(),
            handles_below(self.spec_children()@, parser.spec_tags().len() as int),
        ensures
            r@ == spec_tag_markup(parser.spec_tags(), *self),
    {
        self.outer_html(parser)
    }

    /// Returns the text of this element, without any markup: the text of its children, one
    /// after the other.
    ///
    /// Nothing is allocated where there is no child, or a single child that is text.
    pub fn inner_text<'p>(&self, parser: &'p Parser<'a>) -> (r: Cow<'p, str>)
        requires
            parser.wf(),
            self.wf(),
            handles_below(self.spec_children()@, parser.spec_tags().len() as int),
        ensures
            r@ == spec_tag_text(parser.spec_tags(), self.spec_children()@),
    {
        let cs = self._children.as_slice();
        let tags = parser.tags();
        proof {
            reveal_strlit("");
        }
        if cs.len() == 0 {
            let r = Cow::Borrowed("");
            assert(r@ =~= spec_tag_text(parser.spec_tags(), self.spec_children()@));
            return r;
        }
        if cs.len() == 1 {
            let c = cs[0].get_inner() as usize;
            match &tags[c] {
                Node::Raw(e) => {
                    let r = e.as_utf8_str();
                    proof {
                        assert(cs@[0].0 < tags@.len());
                        assert(spec_children_text(tags@, cs@, 1, -1) =~= Seq::empty());
                        assert(spec_node_text(tags@, c as int) == r@);
                        assert(spec_children_text(tags@, cs@, 0, -1) == spec_node_text(
                            tags@,
                            c as int,
                        ) + spec_children_text(tags@, cs@, 1, -1));
                        assert(r@ =~= spec_tag_text(tags@, cs@));
                    }
                    return r;
                },
                Node::Comment(_) => {
                    let r = Cow::Borrowed("");
                    proof {
                        assert(cs@[0].0 < tags@.len());
                        assert(spec_children_text(tags@, cs@, 1, -1) =~= Seq::empty());
                        assert(spec_node_text(tags@, c as int) == Seq::<char>::empty());
                        assert(spec_children_text(tags@, cs@, 0, -1) == spec_node_text(
                            tags@,
                            c as int,
                        ) + spec_children_text(tags@, cs@, 1, -1));
                        assert(r@ =~= spec_tag_text(tags@, cs@));
                    }
                    return r;
                },
                Node::Tag(_) => {},
            }
        }
        let mut s = String::new();
        push_children_text(parser, cs, &mut s);
        assert(Seq::<char>::empty() + spec_tag_text(tags@, cs@) =~= spec_tag_text(tags@, cs@));
        Cow::Owned(s)
    }

    /// Calls the given closure with each child of this tag and returns the handle of the
    /// first for which it returns `true`.
    pub fn find_node<F>(&self, parser: &Parser<'a>, f: &F) -> (r: Option<NodeHandle>) where
        F: Fn(&Node<'a>) -> bool,

        requires
            parser.wf(),
            self.wf(),
            handles_below(self.spec_children()@, parser.spec_tags().len() as int),
            forall|n: &Node<'a>| #[trigger] call_requires(f, (n,)),
        ensures
            match r {
                Some(h) => exists|k: int|
                    0 <= k < self.spec_children()@.len() && #[trigger] self.spec_children()@[k]
                        == h && accepted(parser.spec_tags(), h, f) && rejected_before(
                        parser.spec_tags(),
                        self.spec_children()@,
                        k,
                        f,
                    ),
                None => rejected_before(
                    parser.spec_tags(),
                    self.spec_children()@,
                    self.spec_children()@.len() as int,
                    f,
                ),
            },
    {
        let cs = self._children.as_slice();
        let tags = parser.tags();
        let mut k: usize = 0;
        while k < cs.len()
            invariant
                k <= cs.len(),
                cs@ == self.spec_children()@,
                tags@ == parser.spec_tags(),
                handles_below(cs@, tags@.len() as int),
                forall|n: &Node<'a>| #[trigger] call_requires(f, (n,)),
                rejected_before(tags@, cs@, k as int, f),
            decreases cs.len() - k,
        {
            let id = cs[k];
            let node = &tags[id.get_inner() as usize];
            if f(node) {
                assert(cs@[k as int] == id);
                return Some(id);
            }
            k += 1;
        }
        None
    }

    /// Tries to parse the query selector and returns an iterator over the nodes below this
    /// tag that match it.
    pub fn query_selector<'b>(&'b self, parser: &'b Parser<'a>, selector: &'b str) -> (r: Option<
        QuerySelectorIterator<'a, 'b, Self>,
    >)
        requires
            parser.wf(),
            self.wf(),
            handles_below(self.spec_children()@, parser.spec_tags().len() as int),
        ensures
            match spec_selector(encode_utf8(selector@), 0) {
                Some(_) => r is Some && r.unwrap().wf() && exists|s: Selector<'b>|
                    parsed_as(
                        Some(s),
                        spec_selector(encode_utf8(selector@), 0).unwrap().1,
                        spec_selector(encode_utf8(selector@), 0),
                    ) && #[trigger] spec_matching(s, self, parser, 0, self.spec_len(parser))
                        == r.unwrap().spec_rest(),
                None => r is None,
            },
    {
        let mut p = crate::queryselector::parser::Parser::new(selector.as_bytes());
        match p.selector() {
            Some(s) => {
                let iter = QuerySelectorIterator::new(s, parser, self);
                Some(iter)
            },
            None => None,
        }
    }

    /// Returns the part of the source that this tag spans.
    ///
    /// Mutating the tag does not change it.
    pub fn raw(&self) -> (r: &Bytes<'a>)
        ensures
            *r == self.spec_raw(),
    {
        &self._raw
    }

    /// Whether the name, the span and the attributes still refer to the source.
    pub open spec fn spec_borrowed(&self) -> bool {
        &&& self.spec_name().is_borrowed()
        &&& self.spec_raw().is_borrowed()
        &&& self.spec_attributes().spec_borrowed()
    }

    /// Whether the span is not empty and ends at an offset that fits in `usize`.
    pub open spec fn spec_span_ok(&self) -> bool {
        &&& self.spec_raw()@.len() >= 1
        &&& self.spec_start() + self.spec_raw()@.len() <= usize::MAX
    }

    /// Returns the offsets of the first and the last byte of this tag in the source.
    pub fn boundaries(&self, parser: &Parser<'a>) -> (r: (usize, usize))
        requires
            self.spec_span_ok(),
        ensures
            r.0 == self.spec_start(),
            r.1 == self.spec_start() + self.spec_raw()@.len() - 1,
    {
        let end = self._start + self._raw.len() - 1;
        (self._start, end)
    }
}

/// A thin wrapper around the children of [`HTMLTag`].
#[derive(Debug)]
pub struct Children<'a, 'b>(&'b HTMLTag<'a>);

impl<'a, 'b> Clone for Children<'a, 'b> {
    fn clone(&self) -> (r: Self)
        ensures
            r.spec_tag() == self.spec_tag(),
    {
        Children(self.0)
    }
}

impl<'a, 'b> Children<'a, 'b> {
    /// The tag whose children these are.
    pub closed spec fn spec_tag(&self) -> &'b HTMLTag<'a> {
        self.0
    }

    /// Returns the topmost, direct children of this tag.
    pub fn top(&self) -> (r: &'b RawChildren)
        ensures
            *r == self.spec_tag().spec_children(),
    {
        &self.0._children
    }

    /// Returns the handle of the first child, where the children of this tag start.
    pub fn start(&self) -> (r: Option<InnerNodeHandle>)
        requires
            self.spec_tag().wf(),
        ensures
            r == if self.spec_tag()@.children.len() > 0 {
                Some(self.spec_tag()@.children[0].0)
            } else {
                None
            },
    {
        match self.0._children.get(0) {
            Some(h) => Some(h.get_inner()),
            None => None,
        }
    }
}

impl<'a, 'b> Children<'a, 'b> {
    /// Returns the handle of the last node below this tag, where its children end.
    pub fn end(&self, parser: &Parser<'a>) -> (r: Option<InnerNodeHandle>)
        requires
            parser.wf(),
            self.spec_tag().wf(),
            handles_below(self.spec_tag().spec_children()@, parser.spec_tags().len() as int),
        ensures
            r == match spec_last_descendant(
                parser.spec_tags(),
                self.spec_tag().spec_children()@,
                -1,
            ) {
                Some(h) => Some(h.0),
                None => None,
            },
            r matches Some(h) ==> h < parser.spec_tags().len(),
    {
        match find_last_node_handle(self.0, parser) {
            Some(h) => Some(h.get_inner()),
            None => None,
        }
    }

    /// Returns the handles of the first and the last node below this tag.
    pub fn boundaries(&self, parser: &Parser<'a>) -> (r: Option<(InnerNodeHandle, InnerNodeHandle)>)
        requires
            parser.wf(),
            self.spec_tag().wf(),
            handles_below(self.spec_tag().spec_children()@, parser.spec_tags().len() as int),
        ensures
            r == spec_boundaries(parser.spec_tags(), self.spec_tag().spec_children()@),
            r matches Some((_, end)) ==> end < parser.spec_tags().len(),
    {
        match self.start() {
            Some(start) => match self.end(parser) {
                Some(end) => Some((start, end)),
                None => None,
            },
            None => None,
        }
    }

    /// Returns a slice of all the nodes below this tag, at any depth, in the order of the
    /// table. It is empty where the last node stands before the first.
    ///
    /// This differs from [`Children::top`], which gives only the direct children.
    pub fn all(&self, parser: &'b Parser<'a>) -> (r: &'b [Node<'a>])
        requires
            parser.wf(),
            self.spec_tag().wf(),
            handles_below(self.spec_tag().spec_children()@, parser.spec_tags().len() as int),
        ensures
            r@ == match spec_boundaries(parser.spec_tags(), self.spec_tag().spec_children()@) {
                Some((start, end)) => if start <= end < parser.spec_tags().len() {
                    parser.spec_tags().subrange(start as int, end + 1)
                } else {
                    Seq::empty()
                },
                None => Seq::empty(),
            },
    {
        let tags = parser.tags();
        match self.boundaries(parser) {
            Some((start, end)) => {
                let s = start as usize;
                let e = end as usize;
                if s <= e && e < tags.len() {
                    vstd::slice::slice_subrange(tags, s, e + 1)
                } else {
                    let r = vstd::slice::slice_subrange(tags, 0, 0);
                    assert(r@ =~= Seq::empty());
                    r
                }
            },
            None => {
                let r = vstd::slice::slice_subrange(tags, 0, 0);
                assert(r@ =~= Seq::empty());
                r
            },
        }
    }
}

/// The handle of the last node below a tag with the children `cs`: the last child, or what
/// is last below that.
pub open spec fn spec_last_descendant(tags: Seq<Node<'_>>, cs: Seq<NodeHandle>, lo: int) -> Option<
    NodeHandle,
>
    decreases tags.len() - lo,
{
    if cs.len() == 0 {
        None
    } else {
        let c = cs.last();
        if -1 <= lo < c.0 < tags.len() {
            match spec_last_descendant(tags, children_of(tags[c.0 as int]), c.0 as int) {
                Some(h) => Some(h),
                None => Some(c),
            }
        } else {
            Some(c)
        }
    }
}

/// The handles of the first and the last node below a tag with the children `cs`.
pub open spec fn spec_boundaries(tags: Seq<Node<'_>>, cs: Seq<NodeHandle>) -> Option<(u32, u32)> {
    if cs.len() > 0 {
        match spec_last_descendant(tags, cs, -1) {
            Some(h) => Some((cs[0].0, h.0)),
            None => None,
        }
    } else {
        None
    }
}

/// Attempts to find the very last node handle that is contained in the given tag.
pub fn find_last_node_handle<'a>(tag: &HTMLTag<'a>, parser: &Parser<'a>) -> (r: Option<NodeHandle>)
    requires
        parser.wf(),
        tag.wf(),
        handles_below(tag.spec_children()@, parser.spec_tags().len() as int),
    ensures
        r == spec_last_descendant(parser.spec_tags(), tag.spec_children()@, -1),
        r matches Some(h) ==> h.0 < parser.spec_tags().len(),
{
    let tags = parser.tags();
    proof {
        parser.lemma_wf();
        tag.lemma_view();
    }
    let top = tag.children().top().as_slice();
    if top.len() == 0 {
        return None;
    }
    let mut last = top[top.len() - 1];
    let ghost want = spec_last_descendant(tags@, tag.spec_children()@, -1);
    loop
        invariant
            tags@ == parser.spec_tags(),
            nodes_ok(tags@),
            last.0 < tags@.len(),
            want == spec_last_descendant(parser.spec_tags(), tag.spec_children()@, -1),
            want == (match spec_last_descendant(
                tags@,
                children_of(tags@[last.0 as int]),
                last.0 as int,
            ) {
                Some(h) => Some(h),
                None => Some(last),
            }),
        decreases tags@.len() - last.0,
    {
        let i = last.get_inner() as usize;
        match &tags[i] {
            Node::Tag(t) => {
                proof {
                    t.lemma_view();
                }
                let cs = t.children().top().as_slice();
                if cs.len() == 0 {
                    return Some(last);
                }
                let c = cs[cs.len() - 1];
                proof {
                    assert(children_of(tags@[i as int])[cs.len() - 1] == c);
                }
                last = c;
            },
            _ => {
                return Some(last);
            },
        }
    }
}

/// A thin mutable wrapper around the children of [`HTMLTag`].
#[derive(Debug)]
pub struct ChildrenMut<'a, 'b>(pub &'b mut HTMLTag<'a>);

impl<'a, 'b> ChildrenMut<'a, 'b> {
    /// Returns the topmost, direct children of this tag for writing.
    pub fn top_mut(&mut self) -> (r: &mut RawChildren)
        ensures
            *r == old(self).0.spec_children(),
            final(self).0.spec_children() == *final(r),
            final(self).0.spec_name() == old(self).0.spec_name(),
            final(self).0.spec_attributes() == old(self).0.spec_attributes(),
            final(self).0.spec_raw() == old(self).0.spec_raw(),
            final(self).0.spec_start() == old(self).0.spec_start(),
            *final(final(self).0) == *final(old(self).0),
    {
        &mut self.0._children
    }
}

/// An HTML node.
#[derive(Debug)]
pub enum Node<'a> {
    /// A regular HTML element.
    Tag(HTMLTag<'a>),
    /// Raw text (no particular HTML element).
    Raw(Bytes<'a>),
    /// Comment (`<!-- -->`).
    Comment(Bytes<'a>),
}

impl<'a> View for Node<'a> {
    type V = NodeModel;

    open spec fn view(&self) -> NodeModel {
        match *self {
            Node::Tag(t) => NodeModel::Tag(t@),
            Node::Raw(b) => NodeModel::Raw(b@),
            Node::Comment(b) => NodeModel::Comment(b@),
        }
    }
}

impl<'a> Clone for Node<'a> {
    /// The clone is a node of the same kind that holds the same.
    fn clone(&self) -> (r: Self)
        ensures
            self.wf() ==> r.wf() && r@ == self@,
    {
        match self {
            Node::Tag(t) => Node::Tag(t.clone()),
            Node::Raw(b) => Node::Raw(b.clone()),
            Node::Comment(b) => Node::Comment(b.clone()),
        }
    }
}

impl<'a> Node<'a> {
    /// A tag node holds a well-formed tag.
    pub open spec fn wf(&self) -> bool {
        *self matches Node::Tag(t) ==> t.wf()
    }

    /// Whether the bytes of the node still refer to the source.
    pub open spec fn spec_borrowed(&self) -> bool {
        match *self {
            Node::Tag(t) => t.spec_borrowed(),
            Node::Raw(b) => b.is_borrowed(),
            Node::Comment(b) => b.is_borrowed(),
        }
    }

    /// The handles of the children of this node, if it is a tag, stand for nodes of `parser`.
    pub open spec fn spec_in(&self, parser: &Parser<'a>) -> bool {
        &&& self.wf()
        &&& handles_below(children_of(*self), parser.spec_tags().len() as int)
    }

    /// Returns the inner text of this node: the text of a text node, nothing for a comment,
    /// the text of the children for a tag.
    pub fn inner_text<'s, 'p: 's>(&'s self, parser: &'p Parser<'a>) -> (r: Cow<'s, str>)
        requires
            parser.wf(),
            self.spec_in(parser),
        ensures
            r@ == spec_inner_text(parser.spec_tags(), *self),
    {
        match self {
            Node::Comment(_) => {
                proof {
                    reveal_strlit("");
                }
                let r = Cow::Borrowed("");
                assert(r@ =~= Seq::<char>::empty());
                r
            },
            Node::Raw(r) => r.as_utf8_str(),
            Node::Tag(t) => t.inner_text(parser),
        }
    }

    /// Returns the markup of this node: the text itself for text and comments, the markup of
    /// the tag for a tag.
    pub fn outer_html<'s>(&'s self, parser: &Parser<'a>) -> (r: Cow<'s, str>)
        requires
            parser.wf(),
            self.spec_in(parser),
        ensures
            r@ == spec_markup(parser.spec_tags(), *self),
    {
        match self {
            Node::Comment(c) => c.as_utf8_str(),
            Node::Raw(r) => r.as_utf8_str(),
            Node::Tag(t) => Cow::Owned(t.outer_html(parser)),
        }
    }

    /// Returns the markup of this node, as [`Node::outer_html`] gives it.
    pub fn inner_html<'s>(&'s self, parser: &Parser<'a>) -> (r: Cow<'s, str>)
        requires
            parser.wf(),
            self.spec_in(parser),
        ensures
            r@ == spec_markup(parser.spec_tags(), *self),
    {
        match self {
            Node::Comment(c) => c.as_utf8_str(),
            Node::Raw(r) => r.as_utf8_str(),
            Node::Tag(t) => Cow::Owned(t.inner_html(parser)),
        }
    }

    /// Calls the given closure with each node below this one, each node before what is below
    /// it, and returns the handle of one for which it returns `true`.
    pub fn find_node<F>(&self, parser: &Parser<'a>, f: &F) -> (r: Option<NodeHandle>) where
        F: Fn(&Node<'a>) -> bool,

        requires
            parser.wf(),
            self.spec_in(parser),
            forall|n: &Node<'a>| #[trigger] call_requires(f, (n,)),
        ensures
            match r {
                Some(h) => accepted(parser.spec_tags(), h, f),
                None => rejected_children(parser.spec_tags(), children_of(*self), 0, -1, f),
            },
    {
        let tags = parser.tags();
        match self {
            Node::Tag(t) => {
                let cs = t._children.as_slice();
                let mut k: usize = 0;
                while k < cs.len()
                    invariant
                        k <= cs.len(),
                        parser.wf(),
                        tags@ == parser.spec_tags(),
                        cs@ == children_of(*self),
                        handles_below(cs@, tags@.len() as int),
                        forall|n: &Node<'a>| #[trigger] call_requires(f, (n,)),
                        rejected_children(tags@, cs@, 0, -1, f) == rejected_children(
                            tags@,
                            cs@,
                            k as int,
                            -1,
                            f,
                        ),
                    decreases cs.len() - k,
                {
                    let id = cs[k];
                    let c = id.get_inner() as usize;
                    if f(&tags[c]) {
                        return Some(id);
                    }
                    let sub = find_below(parser, c, f);
                    if sub.is_some() {
                        return sub;
                    }
                    k += 1;
                }
                None
            },
            _ => None,
        }
    }

    /// Returns the children of this node, if it is a tag.
    pub fn children(&self) -> (r: Option<Children<'a, '_>>)
        ensures
            match *self {
                Node::Tag(t) => r is Some && *r.unwrap().spec_tag() == t,
                _ => r is None,
            },
    {
        match self {
            Node::Tag(t) => Some(t.children()),
            _ => None,
        }
    }

    /// Tries to coerce this node into a tag.
    pub fn as_tag(&self) -> (r: Option<&HTMLTag<'a>>)
        ensures
            r == match *self {
                Node::Tag(t) => Some(&t),
                _ => None,
            },
    {
        match self {
            Node::Tag(tag) => Some(tag),
            _ => None,
        }
    }

    /// Tries to coerce this node into a tag, for writing.
    pub fn as_tag_mut(&mut self) -> (r: Option<&mut HTMLTag<'a>>)
        ensures
            match *old(self) {
                Node::Tag(t) => r is Some && *r.unwrap() == t && *final(self) == Node::Tag(
                    *final(r.unwrap()),
                ),
                _ => r is None && *final(self) == *old(self),
            },
    {
        match self {
            Node::Tag(tag) => Some(tag),
            _ => None,
        }
    }

    /// Tries to coerce this node into a comment, returning the text.
    pub fn as_comment(&self) -> (r: Option<&Bytes<'a>>)
        ensures
            r == match *self {
                Node::Comment(c) => Some(&c),
                _ => None,
            },
    {
        match self {
            Node::Comment(c) => Some(c),
            _ => None,
        }
    }

    /// Tries to coerce this node into a comment, returning the text for writing.
    pub fn as_comment_mut(&mut self) -> (r: Option<&mut Bytes<'a>>)
        ensures
            match *old(self) {
                Node::Comment(c) => r is Some && *r.unwrap() == c && *final(self) == Node::Comment(
                    *final(r.unwrap()),
                ),
                _ => r is None && *final(self) == *old(self),
            },
    {
        match self {
            Node::Comment(c) => Some(c),
            _ => None,
        }
    }

    /// Tries to coerce this node into a raw text node, returning the text.
    pub fn as_raw(&self) -> (r: Option<&Bytes<'a>>)
        ensures
            r == match *self {
                Node::Raw(b) => Some(&b),
                _ => None,
            },
    {
        match self {
            Node::Raw(b) => Some(b),
            _ => None,
        }
    }

    /// Tries to coerce this node into a raw text node, returning the text for writing.
    pub fn as_raw_mut(&mut self) -> (r: Option<&mut Bytes<'a>>)
        ensures
            match *old(self) {
                Node::Raw(b) => r is Some && *r.unwrap() == b && *final(self) == Node::Raw(
                    *final(r.unwrap()),
                ),
                _ => r is None && *final(self) == *old(self),
            },
    {
        match self {
            Node::Raw(b) => Some(b),
            _ => None,
        }
    }
}

} // verus!
