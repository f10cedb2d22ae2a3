//! The index from byte strings to values that the parser keeps for ids and classes.
//!
//! The entries are spread over buckets by a hash of the key, so a lookup looks at the few
//! entries that share the hash of the key it is given.

use crate::bytes::slice_eq;
use crate::util::hash_bytes;
use crate::util::spec_hash;
use crate::bytes::Bytes;
use crate::inline::hashmap::as_map;
use crate::inline::hashmap::distinct_keys;
use crate::inline::hashmap::has_key;
use crate::inline::hashmap::lemma_key_index;
use crate::inline::hashmap::lemma_push_entry;
use crate::inline::hashmap::lemma_swap_remove_entry;
use crate::inline::hashmap::lemma_update_entry;
use std::collections::HashMap;
use vstd::prelude::*;

verus! {

/// The entries that share a hash.
pub type Bucket<'a, V> = Vec<(Bytes<'a>, V)>;

/// Whether no key occurs twice in the bucket and every key has the hash `h`.
pub open spec fn bucket_ok<'a, V>(bucket: Seq<(Bytes<'a>, V)>, h: u64) -> bool {
    &&& distinct_keys(bucket)
    &&& forall|j: int| 0 <= j < bucket.len() ==> spec_hash((#[trigger] bucket[j]).0@) == h
}

/// Whether `buckets` holds an entry under the key `k`.
pub open spec fn has_entry<'a, V>(buckets: Map<u64, Bucket<'a, V>>, k: Seq<u8>) -> bool {
    buckets.contains_key(spec_hash(k)) && has_key(buckets[spec_hash(k)]@, k)
}

/// The map that `buckets` stand for.
pub open spec fn buckets_map<'a, V>(buckets: Map<u64, Bucket<'a, V>>) -> Map<Seq<u8>, V> {
    Map::new(
        |k: Seq<u8>| has_entry(buckets, k),
        |k: Seq<u8>| as_map(buckets[spec_hash(k)]@)[k],
    )
}

/// The index of the entry of `bucket` whose key holds the bytes `key`, if there is one.
pub fn find_in<'a, V>(bucket: &Bucket<'a, V>, key: &[u8]) -> (r: Option<usize>)
    ensures
        r matches Some(i) ==> i < bucket@.len() && bucket@[i as int].0@ == key@,
        r is None ==> !has_key(bucket@, key@),
{
    let mut i: usize = 0;
    while i < bucket.len()
        invariant
            i <= bucket.len(),
            forall|j: int| 0 <= j < i ==> (#[trigger] bucket@[j]).0@ != key@,
        decreases bucket.len() - i,
    {
        if slice_eq(bucket[i].0.as_bytes(), key) {
            return Some(i);
        }
        i += 1;
    }
    None
}

/// A map from byte strings to values, for the indices of the parser.
#[derive(Debug)]
pub struct ByteMap<'a, V> {
    buckets: HashMap<u64, Bucket<'a, V>>,
}

impl<'a, V> View for ByteMap<'a, V> {
    type V = Map<Seq<u8>, V>;

    closed spec fn view(&self) -> Map<Seq<u8>, V> {
        buckets_map(self.buckets@)
    }
}

impl<'a, V> ByteMap<'a, V> {
    /// Every bucket holds entries with distinct keys, all of the hash that the bucket stands
    /// under.
    pub closed spec fn wf(&self) -> bool {
        forall|h: u64| #[trigger]
            self.buckets@.contains_key(h) ==> bucket_ok(self.buckets@[h]@, h)
    }

    /// Creates an empty map.
    pub fn new() -> (r: Self)
        ensures
            r.wf(),
            r@ == Map::<Seq<u8>, V>::empty(),
    {
        let r = ByteMap { buckets: HashMap::new() };
        assert(r@ =~= Map::<Seq<u8>, V>::empty());
        r
    }

    /// Returns a reference to the value stored under the bytes `key`.
    pub fn get(&self, key: &[u8]) -> (r: Option<&V>)
        requires
            self.wf(),
        ensures
            r == if self@.contains_key(key@) {
                Some(&self@[key@])
            } else {
                None
            },
    {
        let h = hash_bytes(key);
        match self.buckets.get(&h) {
            Some(bucket) => match find_in(bucket, key) {
                Some(i) => {
                    proof {
                        lemma_key_index(bucket@, i as int);
                    }
                    Some(&bucket[i].1)
                },
                None => None,
            },
            None => None,
        }
    }

    /// Removes the entry stored under the bytes `key` and returns its value.
    pub fn remove(&mut self, key: &[u8]) -> (r: Option<V>)
        requires
            old(self).wf(),
        ensures
            final(self).wf(),
            final(self)@ == old(self)@.remove(key@),
            r == if old(self)@.contains_key(key@) {
                Some(old(self)@[key@])
            } else {
                None
            },
    {
        let h = hash_bytes(key);
        let ghost before = self.buckets@;
        match self.buckets.remove(&h) {
            Some(bucket) => {
                let mut bucket = bucket;
                let ghost es = bucket@;
                match find_in(&bucket, key) {
                    Some(i) => {
                        proof {
                            lemma_key_index(es, i as int);
                            lemma_swap_remove_entry(es, i as int);
                        }
                        let element = bucket.swap_remove(i);
                        proof {
                            let ns = bucket@;
                            assert forall|j: int| 0 <= j < ns.len() implies spec_hash(
                                (#[trigger] ns[j]).0@,
                            ) == h by {
                                if j == i {
                                    assert(ns[j] == es.last());
                                } else {
                                    assert(ns[j] == es[j]);
                                }
                            }
                        }
                        self.buckets.insert(h, bucket);
                        proof {
                            let after = self.buckets@;
                            assert(after =~= before.insert(h, bucket));
                            let ns = bucket@;
                            let want = buckets_map(before).remove(key@);
                            assert(as_map(ns) == as_map(es).remove(key@));
                            assert forall|x: Seq<u8>| has_entry(after, x) == want.contains_key(
                                x,
                            ) by {
                                if spec_hash(x) == h {
                                    assert(as_map(ns).contains_key(x) == has_key(ns, x));
                                    assert(as_map(es).contains_key(x) == has_key(es, x));
                                }
                            }
                            assert forall|x: Seq<u8>| has_entry(after, x) implies buckets_map(
                                after,
                            )[x] == want[x] by {
                                if spec_hash(x) == h {
                                    assert(as_map(es).contains_key(x) == has_key(es, x));
                                }
                            }
                            assert(buckets_map(after) =~= want);
                        }
                        Some(element.1)
                    },
                    None => {
                        self.buckets.insert(h, bucket);
                        proof {
                            assert(self.buckets@ =~= before);
                            assert(buckets_map(before).remove(key@) =~= buckets_map(before));
                        }
                        None
                    },
                }
            },
            None => {
                proof {
                    assert(self.buckets@ =~= before);
                    assert(buckets_map(before).remove(key@) =~= buckets_map(before));
                }
                None
            },
        }
    }

    /// Stores `value` under `key`, replacing the value of an entry that is already there.
    pub fn insert(&mut self, key: Bytes<'a>, value: V)
        requires
            old(self).wf(),
        ensures
            final(self).wf(),
            final(self)@ == old(self)@.insert(key@, value),
    {
        let h = hash_bytes(key.as_bytes());
        let ghost before = self.buckets@;
        let mut bucket: Bucket<'a, V> = match self.buckets.remove(&h) {
            Some(b) => b,
            None => Vec::new(),
        };
        let ghost es = bucket@;
        proof {
            if !before.contains_key(h) {
                assert(!has_key(es, key@));
            }
        }
        match find_in(&bucket, key.as_bytes()) {
            Some(i) => {
                proof {
                    lemma_key_index(es, i as int);
                    lemma_update_entry(es, i as int, value);
                }
                bucket[i].1 = value;
                proof {
                    assert(bucket@ =~= es.update(i as int, (es[i as int].0, value)));
                    let ns = bucket@;
                    assert forall|j: int| 0 <= j < ns.len() implies spec_hash(
                        (#[trigger] ns[j]).0@,
                    ) == h by {
                        if j != i {
                            assert(ns[j] == es[j]);
                        }
                        assert(spec_hash(es[j].0@) == h);
                    }
                }
            },
            None => {
                proof {
                    lemma_push_entry(es, key, value);
                }
                bucket.push((key, value));
                proof {
                    let ns = bucket@;
                    assert forall|j: int| 0 <= j < ns.len() implies spec_hash(
                        (#[trigger] ns[j]).0@,
                    ) == h by {
                        if j < es.len() {
                            assert(ns[j] == es[j]);
                        }
                    }
                }
            },
        }
        let ghost ns = bucket@;
        self.buckets.insert(h, bucket);
        proof {
            let after = self.buckets@;
            assert(after =~= before.insert(h, bucket));
            assert(as_map(ns) == as_map(es).insert(key@, value));
            let want = buckets_map(before).insert(key@, value);
            assert forall|x: Seq<u8>| has_entry(after, x) == want.contains_key(x) by {
                if spec_hash(x) == h {
                    assert(as_map(ns).contains_key(x) == has_key(ns, x));
                    assert(as_map(es).contains_key(x) == has_key(es, x));
                }
            }
            assert forall|x: Seq<u8>| has_entry(after, x) implies buckets_map(after)[x]
                == want[x] by {
                if spec_hash(x) == h {
                    assert(as_map(es).contains_key(x) == has_key(es, x));
                }
            }
            assert(buckets_map(after) =~= want);
        }
    }
}

impl<'a, V> Default for ByteMap<'a, V> {
    /// The empty map.
    fn default() -> (r: Self)
        ensures
            r.wf(),
            r@ == Map::<Seq<u8>, V>::empty(),
    {
        ByteMap::new()
    }
}

} // verus!
