//! A map that holds up to `N` entries in place.
//!
//! Keys are told apart by their views: two keys stand for the same entry exactly when their
//! views are equal. The operations rely on `==` agreeing with that, which [`key_model`] states.
//! While the entries are in place they are searched one after the other; once they are on the
//! heap an entry is found by the hash of its key.

use crate::inline::fresh;
use crate::inline::hashed::HashedEntries;
use crate::inline::hashed::KeyHash;
use crate::inline::uninit_array;
use std::collections::HashMap;
use std::hash::Hash;
use vstd::prelude::*;
use vstd::std_specs::cmp::PartialEqSpec;
use vstd::std_specs::hash::obeys_key_model;

verus! {

/// `==` on `K` is specified, and holds exactly between keys with equal views.
pub open spec fn key_model<K: View + PartialEq>() -> bool {
    &&& K::obeys_eq_spec()
    &&& forall|a: K, b: K| #[trigger] a.eq_spec(&b) <==> a@ == b@
}

/// Whether some entry of `es` has a key with view `x`.
pub open spec fn has_key<K: View, V>(es: Seq<(K, V)>, x: K::V) -> bool {
    exists|i: int| 0 <= i < es.len() && (#[trigger] es[i]).0@ == x
}

/// The index of an entry of `es` whose key has view `x`.
pub open spec fn key_index<K: View, V>(es: Seq<(K, V)>, x: K::V) -> int {
    choose|i: int| 0 <= i < es.len() && (#[trigger] es[i]).0@ == x
}

/// No two entries of `es` have keys with the same view.
pub open spec fn distinct_keys<K: View, V>(es: Seq<(K, V)>) -> bool {
    forall|i: int, j: int|
        0 <= i < j < es.len() ==> (#[trigger] es[i]).0@ != (#[trigger] es[j]).0@
}

/// The map from key views to values that the entries `es` stand for.
pub open spec fn as_map<K: View, V>(es: Seq<(K, V)>) -> Map<K::V, V> {
    Map::new(|x: K::V| has_key(es, x), |x: K::V| es[key_index(es, x)].1)
}

/// The entries `es` after `v` was stored under `k`: the entry of that key with its value
/// replaced, if there is one, and a new entry at the end otherwise.
pub open spec fn spec_put<K: View, V>(es: Seq<(K, V)>, k: K, v: V) -> Seq<(K, V)> {
    if has_key(es, k@) {
        es.update(key_index(es, k@), (es[key_index(es, k@)].0, v))
    } else {
        es.push((k, v))
    }
}

/// With distinct keys, the entry at `i` is the one found under its key.
pub proof fn lemma_key_index<K: View, V>(es: Seq<(K, V)>, i: int)
    requires
        distinct_keys(es),
        0 <= i < es.len(),
    ensures
        has_key(es, es[i].0@),
        key_index(es, es[i].0@) == i,
        as_map(es).contains_key(es[i].0@),
        as_map(es)[es[i].0@] == es[i].1,
{
    let j = key_index(es, es[i].0@);
    assert(es[j].0@ == es[i].0@);
    if j < i {
        assert(es[j].0@ != es[i].0@);
    } else if i < j {
        assert(es[i].0@ != es[j].0@);
    }
}

/// Appending an entry under a key that is not there yet inserts it into the map.
pub proof fn lemma_push_entry<K: View, V>(es: Seq<(K, V)>, k: K, v: V)
    requires
        distinct_keys(es),
        !has_key(es, k@),
    ensures
        distinct_keys(es.push((k, v))),
        as_map(es.push((k, v))) == as_map(es).insert(k@, v),
{
    let ns = es.push((k, v));
    assert forall|i: int, j: int| 0 <= i < j < ns.len() implies (#[trigger] ns[i]).0@ != (
    #[trigger] ns[j]).0@ by {
        if j < es.len() {
            assert(es[i].0@ != es[j].0@);
        } else {
            assert(es[i].0@ != k@);
        }
    }
    assert forall|x: K::V| has_key(ns, x) <==> (x == k@ || has_key(es, x)) by {
        if has_key(ns, x) {
            let i = key_index(ns, x);
            if i < es.len() {
                assert(es[i].0@ == x);
            }
        }
        if has_key(es, x) {
            let i = key_index(es, x);
            assert(ns[i].0@ == x);
        }
        if x == k@ {
            assert(ns[es.len() as int].0@ == x);
        }
    }
    assert forall|x: K::V| has_key(ns, x) implies #[trigger] as_map(ns)[x] == as_map(es).insert(
        k@,
        v,
    )[x] by {
        let i = key_index(ns, x);
        lemma_key_index(ns, i);
        if i < es.len() {
            lemma_key_index(es, i);
        }
    }
    assert(as_map(ns) =~= as_map(es).insert(k@, v));
}

/// Replacing the value of the entry at `i` inserts the new value under that entry's key.
pub proof fn lemma_update_entry<K: View, V>(es: Seq<(K, V)>, i: int, v: V)
    requires
        distinct_keys(es),
        0 <= i < es.len(),
    ensures
        distinct_keys(es.update(i, (es[i].0, v))),
        as_map(es.update(i, (es[i].0, v))) == as_map(es).insert(es[i].0@, v),
{
    let ns = es.update(i, (es[i].0, v));
    assert forall|a: int, b: int| 0 <= a < b < ns.len() implies (#[trigger] ns[a]).0@ != (
    #[trigger] ns[b]).0@ by {
        assert(es[a].0@ != es[b].0@);
    }
    assert forall|x: K::V| has_key(ns, x) <==> has_key(es, x) by {
        if has_key(ns, x) {
            let j = key_index(ns, x);
            assert(es[j].0@ == x);
        }
        if has_key(es, x) {
            let j = key_index(es, x);
            assert(ns[j].0@ == x);
        }
    }
    lemma_key_index(es, i);
    assert forall|x: K::V| has_key(ns, x) implies #[trigger] as_map(ns)[x] == as_map(es).insert(
        es[i].0@,
        v,
    )[x] by {
        let j = key_index(ns, x);
        lemma_key_index(ns, j);
        lemma_key_index(es, j);
    }
    assert(as_map(ns) =~= as_map(es).insert(es[i].0@, v));
}

/// Moving the last entry into slot `i` and dropping the last slot removes the key that was at
/// `i` from the map.
pub proof fn lemma_swap_remove_entry<K: View, V>(es: Seq<(K, V)>, i: int)
    requires
        distinct_keys(es),
        0 <= i < es.len(),
    ensures
        distinct_keys(es.update(i, es.last()).drop_last()),
        as_map(es.update(i, es.last()).drop_last()) == as_map(es).remove(es[i].0@),
{
    let ns = es.update(i, es.last()).drop_last();
    let last = es.len() - 1;
    // Where each entry of the new sequence came from.
    let from = |a: int|
        if a == i {
            last
        } else {
            a
        };
    assert forall|a: int| 0 <= a < ns.len() implies #[trigger] ns[a] == es[from(a)] && 0 <= from(a)
        < es.len() by {}
    assert forall|a: int, b: int| 0 <= a < b < ns.len() implies (#[trigger] ns[a]).0@ != (
    #[trigger] ns[b]).0@ by {
        assert(ns[a] == es[from(a)] && ns[b] == es[from(b)]);
        if from(a) < from(b) {
            assert(es[from(a)].0@ != es[from(b)].0@);
        } else {
            assert(es[from(b)].0@ != es[from(a)].0@);
        }
    }
    assert forall|x: K::V| has_key(ns, x) <==> (x != es[i].0@ && has_key(es, x)) by {
        if has_key(ns, x) {
            let a = key_index(ns, x);
            assert(ns[a] == es[from(a)]);
            assert(es[from(a)].0@ == x);
            if from(a) < i {
                assert(es[from(a)].0@ != es[i].0@);
            } else if i < from(a) {
                assert(es[i].0@ != es[from(a)].0@);
            }
        }
        if x != es[i].0@ && has_key(es, x) {
            let a = key_index(es, x);
            if a == last {
                assert(ns[i].0@ == x);
            } else {
                assert(ns[a].0@ == x);
            }
        }
    }
    assert forall|x: K::V| has_key(ns, x) implies #[trigger] as_map(ns)[x] == as_map(es)[x] by {
        let a = key_index(ns, x);
        lemma_key_index(ns, a);
        assert(ns[a] == es[from(a)]);
        lemma_key_index(es, from(a));
    }
    assert(as_map(ns) =~= as_map(es).remove(es[i].0@));
}

/// The storage of an [`InlineHashMap`].
///
/// While `Inline`, the entries are the first `len` slots of `data`, searched one after the
/// other; the other slots hold values that mean nothing. Once `Heap`, the map never goes back,
/// and an entry is found by the hash of its key.
#[derive(Debug)]
pub enum InlineHashMapInner<K, V, const N: usize> {
    /// Up to `N` entries, stored in place.
    Inline {
        /// The number of entries.
        len: usize,
        /// The slots.
        data: [(K, V); N],
    },
    /// Any number of entries, stored on the heap and found by the hash of their keys.
    Heap(HashedEntries<K, V>),
}

impl<K: KeyHash, V, const N: usize> View for InlineHashMapInner<K, V, N> {
    type V = Map<K::V, V>;

    open spec fn view(&self) -> Map<K::V, V> {
        as_map(self.spec_entries())
    }
}

impl<K: KeyHash, V, const N: usize> InlineHashMapInner<K, V, N> {
    /// The entries in the order in which they are stored.
    pub open spec fn spec_entries(&self) -> Seq<(K, V)> {
        match *self {
            InlineHashMapInner::Inline { len, data } => data@.subrange(0, len as int),
            InlineHashMapInner::Heap(v) => v@,
        }
    }

    /// An inline map never claims more entries than it has slots, and no key occurs twice.
    pub open spec fn wf(&self) -> bool {
        &&& distinct_keys(self.spec_entries())
        &&& match *self {
            InlineHashMapInner::Inline { len, data } => len <= N,
            InlineHashMapInner::Heap(v) => v.wf(),
        }
    }

    /// Whether the entries are stored on the heap.
    pub open spec fn spec_is_heap_allocated(&self) -> bool {
        *self is Heap
    }
}

impl<K: KeyHash + Default, V: Default, const N: usize> InlineHashMapInner<K, V, N> {
    /// Creates an empty map, stored in place.
    pub fn new() -> (r: Self)
        ensures
            r.wf(),
            r@ == Map::<K::V, V>::empty(),
            r.spec_entries() == Seq::<(K, V)>::empty(),
            !r.spec_is_heap_allocated(),
    {
        let r = InlineHashMapInner::Inline { len: 0, data: uninit_array() };
        assert(r.spec_entries() =~= Seq::<(K, V)>::empty());
        assert(r@ =~= Map::<K::V, V>::empty());
        r
    }

    /// The slots and the number of entries, while the map is stored in place.
    ///
    /// The caller may write to the slots; what the map then holds is read from them.
    pub fn inline_parts_mut(&mut self) -> (r: Option<(&mut [(K, V); N], usize)>)
        ensures
            old(self).spec_is_heap_allocated() ==> r is None && *final(self) == *old(self),
            !old(self).spec_is_heap_allocated() ==> r is Some && *old(self) == (
            InlineHashMapInner::Inline { len: r.unwrap().1, data: *r.unwrap().0 })
                && *final(self) == (InlineHashMapInner::<K, V, N>::Inline {
                len: r.unwrap().1,
                data: *final(r.unwrap().0),
            }),
    {
        match self {
            InlineHashMapInner::Heap(_) => None,
            InlineHashMapInner::Inline { len, data } => Some((data, *len)),
        }
    }

    /// The number of entries.
    pub fn len(&self) -> (r: usize)
        requires
            self.wf(),
        ensures
            r == self.spec_entries().len(),
    {
        match self {
            InlineHashMapInner::Inline { len, .. } => *len,
            InlineHashMapInner::Heap(v) => v.len(),
        }
    }

    /// Checks whether the entries are stored on the heap.
    pub fn is_heap_allocated(&self) -> (r: bool)
        ensures
            r == self.spec_is_heap_allocated(),
    {
        match self {
            InlineHashMapInner::Heap(_) => true,
            InlineHashMapInner::Inline { .. } => false,
        }
    }

    /// The entries as a slice, in the order in which they are stored.
    pub fn entries(&self) -> (r: &[(K, V)])
        requires
            self.wf(),
        ensures
            r@ == self.spec_entries(),
    {
        match self {
            InlineHashMapInner::Heap(v) => v.entries(),
            InlineHashMapInner::Inline { len, data } => vstd::slice::slice_subrange(
                data.as_slice(),
                0,
                *len,
            ),
        }
    }
}

impl<K: KeyHash + Eq + Default, V: Default, const N: usize> InlineHashMapInner<K, V, N> {
    /// The index of the entry stored under `k`, if there is one.
    pub fn find(&self, k: &K) -> (r: Option<usize>)
        requires
            self.wf(),
            key_model::<K>(),
        ensures
            r matches Some(i) ==> i < self.spec_entries().len() && self.spec_entries()[i as int].0@
                == k@,
            r is None ==> !has_key(self.spec_entries(), k@),
            r is Some <==> self@.contains_key(k@),
    {
        match self {
            InlineHashMapInner::Heap(m) => m.find(k),
            InlineHashMapInner::Inline { .. } => {
                let es = self.entries();
                let mut i: usize = 0;
                while i < es.len()
                    invariant
                        i <= es.len(),
                        es@ == self.spec_entries(),
                        key_model::<K>(),
                        forall|j: int| 0 <= j < i ==> (#[trigger] es@[j]).0@ != k@,
                    decreases es.len() - i,
                {
                    if es[i].0 == *k {
                        assert(es@[i as int].0.eq_spec(k));
                        return Some(i);
                    }
                    assert(!es@[i as int].0.eq_spec(k));
                    i += 1;
                }
                None
            },
        }
    }

    /// A reference to the value stored under `k`.
    pub fn get<'m>(&'m self, k: &K) -> (r: Option<&'m V>)
        requires
            self.wf(),
            key_model::<K>(),
        ensures
            r == if self@.contains_key(k@) {
                Some(&self@[k@])
            } else {
                None
            },
    {
        match self.find(k) {
            Some(i) => {
                proof {
                    lemma_key_index(self.spec_entries(), i as int);
                }
                Some(&self.entries()[i].1)
            },
            None => None,
        }
    }

    /// A mutable reference to the value stored under `k`.
    pub fn get_mut<'m>(&'m mut self, k: &K) -> (r: Option<&'m mut V>)
        requires
            old(self).wf(),
            key_model::<K>(),
        ensures
            final(self).wf(),
            final(self).spec_is_heap_allocated() == old(self).spec_is_heap_allocated(),
            final(self).spec_entries().len() == old(self).spec_entries().len(),
            !old(self)@.contains_key(k@) ==> r is None && *final(self) == *old(self),
            old(self)@.contains_key(k@) ==> r is Some && *r.unwrap() == old(self)@[k@]
                && final(self)@ == old(self)@.insert(k@, *final(r.unwrap())),
    {
        let found = self.find(k);
        match found {
            Some(i) => {
                proof {
                    lemma_key_index(self.spec_entries(), i as int);
                }
                let ghost es = self.spec_entries();
                match self {
                    InlineHashMapInner::Inline { data, len } => {
                        let ghost before = *data;
                        let ghost n = *len;
                        let slot = &mut data[i].1;
                        proof {
                            let after = before@.update(i as int, (before@[i as int].0, *final(slot)));
                            assert(after.subrange(0, n as int) =~= es.update(
                                i as int,
                                (es[i as int].0, *final(slot)),
                            ));
                            lemma_update_entry(es, i as int, *final(slot));
                        }
                        Some(slot)
                    },
                    InlineHashMapInner::Heap(m) => {
                        let slot = m.value_mut(i);
                        proof {
                            lemma_update_entry(es, i as int, *final(slot));
                        }
                        Some(slot)
                    },
                }
            },
            None => None,
        }
    }

    /// Removes the entry stored under `key` and returns its value.
    pub fn remove(&mut self, key: &K) -> (r: Option<V>)
        requires
            old(self).wf(),
            key_model::<K>(),
        ensures
            final(self).wf(),
            final(self).spec_is_heap_allocated() == old(self).spec_is_heap_allocated(),
            final(self)@ == old(self)@.remove(key@),
            r == if old(self)@.contains_key(key@) {
                Some(old(self)@[key@])
            } else {
                None
            },
            final(self).spec_entries().len() == old(self).spec_entries().len() - if old(
                self,
            )@.contains_key(key@) {
                1int
            } else {
                0int
            },
    {
        let found = self.find(key);
        match found {
            Some(i) => {
                let ghost es = self.spec_entries();
                proof {
                    lemma_key_index(es, i as int);
                    lemma_swap_remove_entry(es, i as int);
                }
                match self {
                    InlineHashMapInner::Inline { data, len } => {
                        let n = *len;
                        let mut element = fresh::<(K, V)>();
                        core::mem::swap(&mut element, &mut data[i]);
                        if i + 1 < n {
                            let mut last = fresh::<(K, V)>();
                            core::mem::swap(&mut last, &mut data[n - 1]);
                            core::mem::swap(&mut last, &mut data[i]);
                        }
                        *len = n - 1;
                        proof {
                            assert(data@.subrange(0, n - 1) =~= es.update(
                                i as int,
                                es.last(),
                            ).drop_last());
                        }
                        Some(element.1)
                    },
                    InlineHashMapInner::Heap(m) => {
                        let element = m.swap_remove(i);
                        Some(element.1)
                    },
                }
            },
            None => {
                assert(self@.remove(key@) =~= self@);
                None
            },
        }
    }

    /// Stores `v` under `k`, replacing the value of an entry that is already there.
    ///
    /// A map stored in place that is full moves to the heap before it takes a new key.
    pub fn insert(&mut self, k: K, v: V)
        requires
            old(self).wf(),
            key_model::<K>(),
        ensures
            final(self).wf(),
            final(self)@ == old(self)@.insert(k@, v),
            final(self).spec_entries() == spec_put(old(self).spec_entries(), k, v),
            final(self).spec_is_heap_allocated() == (old(self).spec_is_heap_allocated() || (!old(
                self,
            )@.contains_key(k@) && old(self).spec_entries().len() >= N)),
            final(self).spec_entries().len() == old(self).spec_entries().len() + if old(
                self,
            )@.contains_key(k@) {
                0int
            } else {
                1int
            },
    {
        let found = self.find(&k);
        let ghost es = self.spec_entries();
        let mut promoted: Option<HashedEntries<K, V>> = None;
        match found {
            Some(i) => {
                proof {
                    lemma_key_index(es, i as int);
                    lemma_update_entry(es, i as int, v);
                }
                match self {
                    InlineHashMapInner::Inline { data, len } => {
                        let ghost n = *len;
                        data[i].1 = v;
                        proof {
                            assert(data@.subrange(0, n as int) =~= es.update(
                                i as int,
                                (es[i as int].0, v),
                            ));
                        }
                    },
                    InlineHashMapInner::Heap(m) => {
                        let slot = m.value_mut(i);
                        *slot = v;
                    },
                }
            },
            None => {
                proof {
                    lemma_push_entry(es, k, v);
                }
                match self {
                    InlineHashMapInner::Heap(m) => {
                        m.push(k, v);
                    },
                    InlineHashMapInner::Inline { data, len } => {
                        let n = *len;
                        if n >= N {
                            let ghost before = *data;
                            let mut m: HashedEntries<K, V> = HashedEntries::new();
                            let mut i: usize = 0;
                            while i < n
                                invariant
                                    i <= n == N,
                                    m.wf(),
                                    m@.len() == i,
                                    forall|j: int| 0 <= j < i ==> #[trigger] m@[j] == before@[j],
                                    forall|j: int| i <= j < N ==> #[trigger] data@[j] == before@[j],
                                decreases n - i,
                            {
                                let mut element = fresh::<(K, V)>();
                                core::mem::swap(&mut element, &mut data[i]);
                                m.push(element.0, element.1);
                                i += 1;
                            }
                            m.push(k, v);
                            proof {
                                assert(m@ =~= es.push((k, v)));
                            }
                            promoted = Some(m);
                        } else {
                            data[n] = (k, v);
                            *len = n + 1;
                            proof {
                                assert(data@.subrange(0, n + 1) =~= es.push((k, v)));
                            }
                        }
                    },
                }
            },
        }
        if let Some(m) = promoted {
            *self = InlineHashMapInner::Heap(m);
        }
    }

    /// Whether an entry is stored under `k`.
    pub fn contains_key(&self, k: &K) -> (r: bool)
        requires
            self.wf(),
            key_model::<K>(),
        ensures
            r == self@.contains_key(k@),
    {
        self.find(k).is_some()
    }
}

/// Whether one of the first `n` entries of `es` has clones `k` of its key and `v` of its value.
pub open spec fn has_source<K: Clone, V: Clone>(es: Seq<(K, V)>, n: int, k: K, v: V) -> bool {
    exists|i: int| 0 <= i < n && cloned((#[trigger] es[i]).0, k) && cloned(es[i].1, v)
}

/// Whether `m` holds an entry under a clone of `key`.
pub open spec fn has_copy<K: Clone, V>(m: Map<K, V>, key: K) -> bool {
    exists|k: K| cloned(key, k) && #[trigger] m.contains_key(k)
}

/// Whether `m` is a copy of the first `n` entries of `es`: every entry of `m` is a clone of one
/// of them, and each of them has a clone of its key in `m`.
pub open spec fn is_copy_of<K: Clone, V: Clone>(m: Map<K, V>, es: Seq<(K, V)>, n: int) -> bool {
    &&& forall|k: K| #[trigger] m.contains_key(k) ==> has_source(es, n, k, m[k])
    &&& forall|i: int| 0 <= i < n ==> has_copy(m, (#[trigger] es[i]).0)
}

impl<K: KeyHash + Default, V: Default, const N: usize> InlineHashMapInner<K, V, N> {
    /// Copies the entries into a new `HashMap`.
    ///
    /// Where `K` is a key the standard map is specified for, the result is a copy of the
    /// entries in the sense of [`is_copy_of`].
    pub fn to_map(&self) -> (r: HashMap<K, V>) where K: Clone + Hash + Eq, V: Clone
        requires
            self.wf(),
        ensures
            obeys_key_model::<K>() ==> is_copy_of(
                r@,
                self.spec_entries(),
                self.spec_entries().len() as int,
            ),
    {
        let es = self.entries();
        let mut out: HashMap<K, V> = HashMap::with_capacity(es.len());
        let mut n: usize = 0;
        while n < es.len()
            invariant
                n <= es.len(),
                es@ == self.spec_entries(),
                obeys_key_model::<K>() ==> is_copy_of(out@, es@, n as int),
            decreases es.len() - n,
        {
            let key = es[n].0.clone();
            let value = es[n].1.clone();
            let ghost before = out@;
            out.insert(key, value);
            proof {
                if obeys_key_model::<K>() {
                    assert(out@ == before.insert(key, value));
                    assert forall|k: K| #[trigger] out@.contains_key(k) implies has_source(
                        es@,
                        n + 1,
                        k,
                        out@[k],
                    ) by {
                        if k == key {
                            assert(cloned(es@[n as int].0, k) && cloned(es@[n as int].1, out@[k]));
                        } else {
                            assert(before.contains_key(k));
                            assert(has_source(es@, n as int, k, before[k]));
                            let i = choose|i: int|
                                0 <= i < n && cloned((#[trigger] es@[i]).0, k) && cloned(
                                    es@[i].1,
                                    before[k],
                                );
                            assert(cloned(es@[i].0, k) && cloned(es@[i].1, out@[k]));
                        }
                    }
                    assert forall|i: int| 0 <= i < n + 1 implies has_copy(
                        out@,
                        (#[trigger] es@[i]).0,
                    ) by {
                        if i == n {
                            assert(cloned(es@[i].0, key) && out@.contains_key(key));
                        } else {
                            assert(has_copy(before, es@[i].0));
                            let k = choose|k: K|
                                cloned(es@[i].0, k) && #[trigger] before.contains_key(k);
                            assert(cloned(es@[i].0, k) && out@.contains_key(k));
                        }
                    }
                }
            }
            n += 1;
        }
        out
    }
}

/// Entries whose keys have, slot by slot, the views of distinct keys have distinct keys
/// themselves, and stand for a map with the same keys, in which each key leads to the value
/// in the slot of that key.
pub proof fn lemma_same_keys<K: View, V>(a: Seq<(K, V)>, b: Seq<(K, V)>)
    requires
        distinct_keys(a),
        a.len() == b.len(),
        forall|i: int| 0 <= i < a.len() ==> (#[trigger] a[i]).0@ == b[i].0@,
    ensures
        distinct_keys(b),
        forall|k: K::V| #[trigger] as_map(a).contains_key(k) == as_map(b).contains_key(k),
        forall|k: K::V|
            #[trigger] as_map(a).contains_key(k) ==> key_index(a, k) == key_index(b, k) && 0
                <= key_index(a, k) < a.len(),
{
    assert forall|i: int, j: int| 0 <= i < j < b.len() implies (#[trigger] b[i]).0@ != (
    #[trigger] b[j]).0@ by {
        assert(a[i].0@ != a[j].0@);
    }
    assert forall|k: K::V| #[trigger] as_map(a).contains_key(k) == as_map(b).contains_key(k) by {
        if has_key(a, k) {
            let i = key_index(a, k);
            assert(b[i].0@ == k);
        }
        if has_key(b, k) {
            let i = key_index(b, k);
            assert(a[i].0@ == k);
        }
    }
    assert forall|k: K::V| #[trigger] as_map(a).contains_key(k) implies key_index(a, k)
        == key_index(b, k) && 0 <= key_index(a, k) < a.len() by {
        let i = key_index(a, k);
        lemma_key_index(a, i);
        assert(b[i].0@ == k);
        lemma_key_index(b, i);
    }
}

/// Whether `b` holds, slot by slot, clones of the entries of `a`.
pub open spec fn cloned_entries<K: Clone, V: Clone>(a: Seq<(K, V)>, b: Seq<(K, V)>) -> bool {
    &&& a.len() == b.len()
    &&& forall|i: int|
        0 <= i < a.len() ==> cloned((#[trigger] a[i]).0, b[i].0) && cloned(a[i].1, b[i].1)
}

impl<K: Clone + KeyHash + Default, V: Clone + Default, const N: usize> Clone for InlineHashMapInner<
    K,
    V,
    N,
> {
    /// Clones entry by entry and keeps the representation and the order. The clone is
    /// well-formed if cloning left the keys distinct.
    fn clone(&self) -> (r: Self)
        ensures
            self.wf() ==> {
                &&& r.spec_is_heap_allocated() == self.spec_is_heap_allocated()
                &&& cloned_entries(self.spec_entries(), r.spec_entries())
                &&& distinct_keys(r.spec_entries()) ==> r.wf()
            },
    {
        match self {
            InlineHashMapInner::Heap(m) => {
                let es = m.entries();
                let mut out: HashedEntries<K, V> = HashedEntries::new();
                let mut i: usize = 0;
                while i < es.len()
                    invariant
                        i <= es.len(),
                        es@ == m@,
                        out.wf(),
                        out@.len() == i,
                        forall|j: int|
                            0 <= j < i ==> cloned((#[trigger] es@[j]).0, out@[j].0) && cloned(
                                es@[j].1,
                                out@[j].1,
                            ),
                    decreases es.len() - i,
                {
                    out.push(es[i].0.clone(), es[i].1.clone());
                    i += 1;
                }
                InlineHashMapInner::Heap(out)
            },
            InlineHashMapInner::Inline { len, data } => {
                let mut new_data: [(K, V); N] = uninit_array();
                let n = if *len <= N {
                    *len
                } else {
                    N
                };
                let mut i: usize = 0;
                while i < n
                    invariant
                        i <= n <= N,
                        forall|j: int|
                            0 <= j < i ==> cloned((#[trigger] data@[j]).0, new_data@[j].0)
                                && cloned(data@[j].1, new_data@[j].1),
                    decreases n - i,
                {
                    new_data[i] = (data[i].0.clone(), data[i].1.clone());
                    i += 1;
                }
                InlineHashMapInner::Inline { len: n, data: new_data }
            },
        }
    }
}

/// An iterator over the entries of an inline map.
pub struct InlineHashMapIterator<'a, K, V> {
    array: &'a [(K, V)],
    idx: usize,
    len: usize,
}

impl<'a, K, V> InlineHashMapIterator<'a, K, V> {
    /// The entries that are still to come.
    pub closed spec fn spec_rest(&self) -> Seq<(K, V)> {
        if self.idx <= self.len <= self.array@.len() {
            self.array@.subrange(self.idx as int, self.len as int)
        } else {
            Seq::empty()
        }
    }

    /// An iterator over the first `len` entries of `array`.
    pub fn new(array: &'a [(K, V)], len: usize) -> (r: Self)
        ensures
            r.spec_rest() == if len <= array@.len() {
                array@.subrange(0, len as int)
            } else {
                Seq::empty()
            },
    {
        Self { array, idx: 0, len }
    }

    /// The next entry, if any is left.
    pub fn next(&mut self) -> (r: Option<&'a (K, V)>)
        ensures
            old(self).spec_rest().len() == 0 ==> r is None && final(self).spec_rest().len() == 0,
            old(self).spec_rest().len() > 0 ==> r == Some(&old(self).spec_rest()[0])
                && final(self).spec_rest() == old(self).spec_rest().drop_first(),
    {
        if self.idx >= self.len || self.len > self.array.len() {
            return None;
        }
        let element = &self.array[self.idx];
        self.idx = self.idx + 1;
        assert(self.spec_rest() =~= old(self).spec_rest().drop_first());
        Some(element)
    }
}

/// An iterator over the entries of an inline map that hands them out for writing.
pub struct InlineHashMapIteratorMut<'a, K, V> {
    array: &'a mut [(K, V)],
    idx: usize,
    len: usize,
}

impl<'a, K, V> InlineHashMapIteratorMut<'a, K, V> {
    /// All the entries the iterator runs over, those already handed out included.
    pub closed spec fn spec_entries(&self) -> Seq<(K, V)> {
        self.array@
    }

    /// The index of the entry that comes next.
    pub closed spec fn spec_position(&self) -> int {
        self.idx as int
    }

    /// The index at which the iterator stops.
    pub closed spec fn spec_end(&self) -> int {
        if self.len <= self.array@.len() {
            self.len as int
        } else {
            0
        }
    }

    /// An iterator over the first `len` entries of `array`.
    pub fn new(array: &'a mut [(K, V)], len: usize) -> (r: Self)
        ensures
            r.spec_entries() == old(array)@,
            r.spec_position() == 0,
            r.spec_end() == if len <= old(array)@.len() {
                len as int
            } else {
                0
            },
    {
        Self { array, idx: 0, len }
    }

    /// The next entry for writing, if any is left.
    pub fn next(&mut self) -> (r: Option<&mut (K, V)>)
        ensures
            final(self).spec_end() == old(self).spec_end(),
            old(self).spec_position() >= old(self).spec_end() ==> {
                &&& r is None
                &&& final(self).spec_entries() == old(self).spec_entries()
                &&& final(self).spec_position() == old(self).spec_position()
            },
            old(self).spec_position() < old(self).spec_end() ==> {
                &&& r is Some
                &&& *r.unwrap() == old(self).spec_entries()[old(self).spec_position()]
                &&& final(self).spec_position() == old(self).spec_position() + 1
                &&& final(self).spec_entries() == old(self).spec_entries().update(
                    old(self).spec_position(),
                    *final(r.unwrap()),
                )
            },
    {
        if self.idx >= self.len || self.len > self.array.len() {
            return None;
        }
        let i = self.idx;
        self.idx = i + 1;
        Some(&mut self.array[i])
    }
}

/// A map that keeps up to `N` entries in place and moves to the heap beyond that.
#[derive(Debug)]
pub struct InlineHashMap<K, V, const N: usize>(InlineHashMapInner<K, V, N>);

impl<K: KeyHash, V, const N: usize> View for InlineHashMap<K, V, N> {
    type V = Map<K::V, V>;

    closed spec fn view(&self) -> Map<K::V, V> {
        self.0@
    }
}

impl<K: KeyHash, V, const N: usize> InlineHashMap<K, V, N> {
    /// Whether an entry is stored under `key`.
    pub open spec fn spec_contains_key(&self, key: K) -> bool {
        self@.contains_key(key@)
    }

    /// The value stored under `key`, if there is one.
    pub open spec fn spec_get(&self, key: K) -> Option<V> {
        if self@.contains_key(key@) {
            Some(self@[key@])
        } else {
            None
        }
    }

    /// The map after `value` was stored under `key`.
    pub open spec fn spec_inserted(&self, key: K, value: V) -> Map<K::V, V> {
        self@.insert(key@, value)
    }

    /// The map after the entry under `key` was removed.
    pub open spec fn spec_removed(&self, key: K) -> Map<K::V, V> {
        self@.remove(key@)
    }

    /// The storage is well-formed.
    pub closed spec fn wf(&self) -> bool {
        self.0.wf()
    }

    /// Whether the entries are stored on the heap.
    pub closed spec fn spec_is_heap_allocated(&self) -> bool {
        self.0.spec_is_heap_allocated()
    }

    /// The entries in the order in which they are stored.
    pub closed spec fn spec_entries(&self) -> Seq<(K, V)> {
        self.0.spec_entries()
    }

    /// A map whose entries have distinct keys is well-formed as far as the entries go, and
    /// stands for what they stand for.
    pub proof fn lemma_from_entries(&self)
        ensures
            self@ == as_map(self.spec_entries()),
    {
    }

    /// The map is the one its entries stand for, and no key occurs twice among them.
    pub proof fn lemma_entries(&self)
        requires
            self.wf(),
        ensures
            self@ == as_map(self.spec_entries()),
            distinct_keys(self.spec_entries()),
    {
    }
}

impl<K: KeyHash + Eq + Default, V: Default, const N: usize> InlineHashMap<K, V, N> {
    /// Creates an empty map, stored in place.
    pub fn new() -> (r: Self)
        ensures
            r.wf(),
            r@ == Map::<K::V, V>::empty(),
            r.spec_entries() == Seq::<(K, V)>::empty(),
            !r.spec_is_heap_allocated(),
    {
        Self(InlineHashMapInner::new())
    }

    /// Returns the number of entries in the map.
    pub fn len(&self) -> (r: usize)
        requires
            self.wf(),
        ensures
            r == self.spec_entries().len(),
    {
        self.0.len()
    }

    /// The slots and the number of entries, while the map is stored in place.
    pub fn inline_parts_mut(&mut self) -> (r: Option<(&mut [(K, V); N], usize)>)
        ensures
            r is None <==> old(self).spec_is_heap_allocated(),
            r is None ==> *final(self) == *old(self),
            r is Some ==> old(self).spec_entries() == r.unwrap().0@.subrange(
                0,
                r.unwrap().1 as int,
            ) && final(self).spec_entries() == final(r.unwrap().0)@.subrange(
                0,
                r.unwrap().1 as int,
            ) && !final(self).spec_is_heap_allocated(),
    {
        self.0.inline_parts_mut()
    }

    /// Copies `self` into a new `HashMap<K, V>`.
    ///
    /// Where `K` is a key the standard map is specified for, the result is a copy of the
    /// entries in the sense of [`is_copy_of`].
    pub fn to_map(&self) -> (r: HashMap<K, V>) where K: Clone + Hash + Eq, V: Clone
        requires
            self.wf(),
        ensures
            obeys_key_model::<K>() ==> is_copy_of(
                r@,
                self.spec_entries(),
                self.spec_entries().len() as int,
            ),
    {
        self.0.to_map()
    }

    /// Checks whether this map is allocated on the heap.
    pub fn is_heap_allocated(&self) -> (r: bool)
        ensures
            r == self.spec_is_heap_allocated(),
    {
        self.0.is_heap_allocated()
    }

    /// Inserts an entry into the map, replacing the value of an entry with the same key.
    pub fn insert(&mut self, key: K, value: V)
        requires
            old(self).wf(),
            key_model::<K>(),
        ensures
            final(self).wf(),
            final(self)@ == old(self).spec_inserted(key, value),
            final(self).spec_entries() == spec_put(old(self).spec_entries(), key, value),
            final(self).spec_is_heap_allocated() == (old(self).spec_is_heap_allocated() || (!old(
                self,
            )@.contains_key(key@) && old(self).spec_entries().len() >= N)),
            final(self).spec_entries().len() == old(self).spec_entries().len() + if old(
                self,
            )@.contains_key(key@) {
                0int
            } else {
                1int
            },
    {
        self.0.insert(key, value)
    }

    /// Removes an entry from the map and returns its value.
    pub fn remove(&mut self, key: &K) -> (r: Option<V>)
        requires
            old(self).wf(),
            key_model::<K>(),
        ensures
            final(self).wf(),
            final(self).spec_is_heap_allocated() == old(self).spec_is_heap_allocated(),
            final(self)@ == old(self).spec_removed(*key),
            r == old(self).spec_get(*key),
            final(self).spec_entries().len() == old(self).spec_entries().len() - if old(
                self,
            )@.contains_key(key@) {
                1int
            } else {
                0int
            },
    {
        self.0.remove(key)
    }

    /// Returns a reference to the value corresponding to the key.
    pub fn get(&self, key: &K) -> (r: Option<&V>)
        requires
            self.wf(),
            key_model::<K>(),
        ensures
            r == match self.spec_get(*key) {
                Some(v) => Some(&v),
                None => None,
            },
    {
        self.0.get(key)
    }

    /// Returns a mutable reference to the value corresponding to the key.
    pub fn get_mut(&mut self, key: &K) -> (r: Option<&mut V>)
        requires
            old(self).wf(),
            key_model::<K>(),
        ensures
            final(self).wf(),
            final(self).spec_is_heap_allocated() == old(self).spec_is_heap_allocated(),
            final(self).spec_entries().len() == old(self).spec_entries().len(),
            !old(self)@.contains_key(key@) ==> r is None && *final(self) == *old(self),
            old(self)@.contains_key(key@) ==> r is Some && *r.unwrap() == old(self)@[key@]
                && final(self)@ == old(self)@.insert(key@, *final(r.unwrap())),
    {
        self.0.get_mut(key)
    }

    /// Checks whether the map holds an entry for the key.
    pub fn contains_key(&self, key: &K) -> (r: bool)
        requires
            self.wf(),
            key_model::<K>(),
        ensures
            r == self.spec_contains_key(*key),
    {
        self.0.contains_key(key)
    }

    /// The entries as a slice, in the order in which they are stored.
    pub fn entries(&self) -> (r: &[(K, V)])
        requires
            self.wf(),
        ensures
            r@ == self.spec_entries(),
    {
        self.0.entries()
    }

    /// Returns an iterator over the entries of this map.
    pub fn iter(&self) -> (r: InlineHashMapIterator<'_, K, V>)
        requires
            self.wf(),
        ensures
            r.spec_rest() == self.spec_entries(),
    {
        let es = self.0.entries();
        let r = InlineHashMapIterator::new(es, es.len());
        assert(es@.subrange(0, es@.len() as int) =~= es@);
        r
    }
}

/// What a map shows of itself does not depend on where it stores its entries: two maps with
/// the same entries, one stored in place and one on the heap, hold the same keys, give the
/// same value under every key, and come out the same after the same insertion or removal.
/// Only `is_heap_allocated` tells them apart.
pub proof fn lemma_representation_is_not_observable<
    K: KeyHash + Eq + Default,
    V: Default,
    const N: usize,
    const M: usize,
>(a: InlineHashMap<K, V, N>, b: InlineHashMap<K, V, M>, key: K, value: V)
    requires
        a.wf(),
        b.wf(),
        a@ == b@,
        !a.spec_is_heap_allocated(),
        b.spec_is_heap_allocated(),
    ensures
        a.spec_contains_key(key) == b.spec_contains_key(key),
        a.spec_get(key) == b.spec_get(key),
        a.spec_inserted(key, value) == b.spec_inserted(key, value),
        a.spec_removed(key) == b.spec_removed(key),
{
}

impl<K: Clone + KeyHash + Default, V: Clone + Default, const N: usize> Clone for InlineHashMap<
    K,
    V,
    N,
> {
    /// Clones entry by entry and keeps the representation and the order. The clone is
    /// well-formed if cloning left the keys distinct.
    fn clone(&self) -> (r: Self)
        ensures
            self.wf() ==> {
                &&& r.spec_is_heap_allocated() == self.spec_is_heap_allocated()
                &&& cloned_entries(self.spec_entries(), r.spec_entries())
                &&& distinct_keys(r.spec_entries()) ==> r.wf()
            },
    {
        InlineHashMap(self.0.clone())
    }
}

} // verus!
