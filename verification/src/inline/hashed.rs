//! The heap storage of an inline map: the entries in a vector, found through a table that
//! maps the hash of a key to the places where keys of that hash stand.

use crate::bytes::Bytes;
use crate::inline::hashmap::has_key;
use crate::inline::hashmap::key_model;
use crate::util::hash_bytes;
use crate::util::spec_hash;
use std::collections::HashMap;
use vstd::prelude::*;
use vstd::std_specs::cmp::PartialEqSpec;
use vstd::utf8::encode_utf8;

verus! {

/// Keys that have a hash: a number that depends on the view of the key alone.
pub trait KeyHash: View + Sized {
    /// The hash of a key with the view `v`.
    spec fn spec_key_hash(v: Self::V) -> u64;

    /// Computes the hash of the key.
    fn key_hash(&self) -> (h: u64)
        ensures
            h == Self::spec_key_hash(self@),
    ;
}

impl<'a> KeyHash for Bytes<'a> {
    open spec fn spec_key_hash(v: Seq<u8>) -> u64 {
        spec_hash(v)
    }

    fn key_hash(&self) -> (h: u64) {
        hash_bytes(self.as_bytes())
    }
}

impl KeyHash for u8 {
    open spec fn spec_key_hash(v: u8) -> u64 {
        v as u64
    }

    fn key_hash(&self) -> (h: u64) {
        *self as u64
    }
}

impl KeyHash for u16 {
    open spec fn spec_key_hash(v: u16) -> u64 {
        v as u64
    }

    fn key_hash(&self) -> (h: u64) {
        *self as u64
    }
}

impl KeyHash for u32 {
    open spec fn spec_key_hash(v: u32) -> u64 {
        v as u64
    }

    fn key_hash(&self) -> (h: u64) {
        *self as u64
    }
}

impl KeyHash for u64 {
    open spec fn spec_key_hash(v: u64) -> u64 {
        v
    }

    fn key_hash(&self) -> (h: u64) {
        *self
    }
}

impl KeyHash for usize {
    open spec fn spec_key_hash(v: usize) -> u64 {
        v as u64
    }

    fn key_hash(&self) -> (h: u64) {
        *self as u64
    }
}

impl<'s> KeyHash for &'s str {
    open spec fn spec_key_hash(v: Seq<char>) -> u64 {
        spec_hash(encode_utf8(v))
    }

    fn key_hash(&self) -> (h: u64) {
        hash_bytes(self.as_bytes())
    }
}

impl KeyHash for String {
    open spec fn spec_key_hash(v: Seq<char>) -> u64 {
        spec_hash(encode_utf8(v))
    }

    fn key_hash(&self) -> (h: u64) {
        hash_bytes(self.as_str().as_bytes())
    }
}

/// Whether the place `j` stands in `index` under the hash `h`.
pub open spec fn leads_to(index: Map<u64, Vec<usize>>, h: u64, j: usize) -> bool {
    index.contains_key(h) && index[h]@.contains(j)
}

/// Whether the table `index` leads to every entry of `es`: the place of each entry stands
/// under the hash of its key.
pub open spec fn leads_to_all<K: KeyHash, V>(index: Map<u64, Vec<usize>>, es: Seq<(K, V)>) -> bool {
    forall|j: usize|
        j < es.len() ==> #[trigger] leads_to(index, K::spec_key_hash(es[j as int].0@), j)
}

/// Takes every occurrence of `x` out of `places` and keeps everything else.
pub fn forget(places: &mut Vec<usize>, x: usize)
    ensures
        !final(places)@.contains(x),
        forall|y: usize| y != x && old(places)@.contains(y) ==> #[trigger] final(places)@.contains(y),
{
    let ghost before = places@;
    let mut c: usize = 0;
    while c < places.len()
        invariant
            c <= places.len(),
            forall|d: int| 0 <= d < c ==> places@[d] != x,
            forall|y: usize| y != x && before.contains(y) ==> #[trigger] places@.contains(y),
        decreases places.len() - c,
    {
        if places[c] == x {
            let ghost prior = places@;
            let _ = places.swap_remove(c);
            proof {
                let now = places@;
                assert forall|y: usize| y != x && before.contains(y) implies #[trigger] now.contains(
                    y,
                ) by {
                    assert(prior.contains(y));
                    let d = choose|d: int| 0 <= d < prior.len() && prior[d] == y;
                    if d == prior.len() - 1 {
                        assert(now[c as int] == y);
                    } else {
                        assert(now[d] == y);
                    }
                }
            }
        } else {
            c += 1;
        }
    }
}

/// The entries of a map on the heap, with a table to find them by the hash of their keys.
#[derive(Debug)]
pub struct HashedEntries<K, V> {
    entries: Vec<(K, V)>,
    index: HashMap<u64, Vec<usize>>,
}

impl<K: KeyHash, V> View for HashedEntries<K, V> {
    type V = Seq<(K, V)>;

    /// The entries in the order in which they are stored.
    closed spec fn view(&self) -> Seq<(K, V)> {
        self.entries@
    }
}

impl<K: KeyHash, V> HashedEntries<K, V> {
    /// The table leads to every entry.
    pub closed spec fn wf(&self) -> bool {
        leads_to_all(self.index@, self.entries@)
    }

    /// Creates an empty store.
    pub fn new() -> (r: Self)
        ensures
            r.wf(),
            r@ == Seq::<(K, V)>::empty(),
    {
        HashedEntries { entries: Vec::new(), index: HashMap::new() }
    }

    /// The number of entries.
    pub fn len(&self) -> (r: usize)
        ensures
            r == self@.len(),
    {
        self.entries.len()
    }

    /// The entries as a slice, in the order in which they are stored.
    pub fn entries(&self) -> (r: &[(K, V)])
        ensures
            r@ == self@,
    {
        self.entries.as_slice()
    }

    /// The value of the entry at `i`, for writing.
    pub fn value_mut(&mut self, i: usize) -> (r: &mut V)
        requires
            old(self).wf(),
            i < old(self)@.len(),
        ensures
            final(self).wf(),
            *r == old(self)@[i as int].1,
            final(self)@ == old(self)@.update(i as int, (old(self)@[i as int].0, *final(r))),
    {
        let ghost before = self.entries@;
        let ghost index = self.index@;
        let slot = &mut self.entries[i].1;
        proof {
            let after = before.update(i as int, (before[i as int].0, *final(slot)));
            assert forall|j: usize| j < after.len() implies #[trigger] leads_to(
                index,
                K::spec_key_hash(after[j as int].0@),
                j,
            ) by {
                assert(leads_to(index, K::spec_key_hash(before[j as int].0@), j));
            }
        }
        slot
    }

    /// Puts the place `j` under the hash `h`.
    fn note(&mut self, h: u64, j: usize)
        ensures
            final(self).entries == old(self).entries,
            leads_to(final(self).index@, h, j),
            forall|g: u64, x: usize|
                leads_to(old(self).index@, g, x) ==> #[trigger] leads_to(final(self).index@, g, x),
    {
        let ghost before = self.index@;
        let mut places: Vec<usize> = match self.index.remove(&h) {
            Some(p) => p,
            None => Vec::new(),
        };
        let ghost prior = places@;
        places.push(j);
        self.index.insert(h, places);
        proof {
            let after = self.index@;
            assert(after[h]@[prior.len() as int] == j);
            assert forall|g: u64, x: usize| leads_to(before, g, x) implies #[trigger] leads_to(
                after,
                g,
                x,
            ) by {
                let c = choose|c: int| 0 <= c < before[g]@.len() && before[g]@[c] == x;
                if g == h {
                    assert(after[g]@[c] == x);
                } else {
                    assert(after[g] == before[g]);
                }
            }
        }
    }

    /// Takes the place `j` from under the hash `h`: it stands there no more, every other
    /// place stays where it stood, and what stands under other hashes is as it was.
    fn drop_place(&mut self, h: u64, j: usize)
        ensures
            final(self).entries == old(self).entries,
            !leads_to(final(self).index@, h, j),
            forall|g: u64|
                g != h ==> (#[trigger] final(self).index@.contains_key(g)) == old(
                    self,
                ).index@.contains_key(g),
            forall|g: u64|
                g != h && old(self).index@.contains_key(g) ==> #[trigger] final(self).index@[g]
                    == old(self).index@[g],
            forall|g: u64, x: usize|
                x != j && leads_to(old(self).index@, g, x) ==> #[trigger] leads_to(
                    final(self).index@,
                    g,
                    x,
                ),
    {
        let ghost before = self.index@;
        match self.index.remove(&h) {
            Some(p) => {
                let mut places = p;
                forget(&mut places, j);
                self.index.insert(h, places);
                proof {
                    let after = self.index@;
                    assert forall|g: u64, x: usize|
                        x != j && leads_to(before, g, x) implies #[trigger] leads_to(
                        after,
                        g,
                        x,
                    ) by {
                        if g != h {
                            assert(after[g] == before[g]);
                        }
                    }
                }
            },
            None => {
                proof {
                    assert(self.index@ =~= before);
                }
            },
        }
    }

    /// Appends an entry.
    pub fn push(&mut self, key: K, value: V)
        requires
            old(self).wf(),
        ensures
            final(self).wf(),
            final(self)@ == old(self)@.push((key, value)),
    {
        let h = key.key_hash();
        let j = self.entries.len();
        let ghost before = self.entries@;
        let ghost index = self.index@;
        self.entries.push((key, value));
        self.note(h, j);
        proof {
            let after = self.entries@;
            assert forall|x: usize| x < after.len() implies #[trigger] leads_to(
                self.index@,
                K::spec_key_hash(after[x as int].0@),
                x,
            ) by {
                if x < before.len() {
                    assert(after[x as int] == before[x as int]);
                    assert(leads_to(index, K::spec_key_hash(before[x as int].0@), x));
                }
            }
        }
    }

    /// Removes the entry at `i` and returns it; the last entry takes its place.
    pub fn swap_remove(&mut self, i: usize) -> (r: (K, V))
        requires
            old(self).wf(),
            i < old(self)@.len(),
        ensures
            final(self).wf(),
            r == old(self)@[i as int],
            final(self)@ == old(self)@.update(i as int, old(self)@.last()).drop_last(),
    {
        let ghost before = self.entries@;
        let ghost index = self.index@;
        let last = self.entries.len() - 1;
        let gone = self.entries[i].0.key_hash();
        let moved = self.entries[last].0.key_hash();
        let r = self.entries.swap_remove(i);
        // The removed entry leaves the table, and the entry that took its place is found
        // there from now on.
        self.drop_place(gone, i);
        let ghost middle = self.index@;
        self.drop_place(moved, last);
        if i < last {
            self.note(moved, i);
        }
        proof {
            let after = self.entries@;
            assert forall|x: usize| x < after.len() implies #[trigger] leads_to(
                self.index@,
                K::spec_key_hash(after[x as int].0@),
                x,
            ) by {
                if x != i {
                    assert(after[x as int] == before[x as int]);
                    assert(leads_to(index, K::spec_key_hash(before[x as int].0@), x));
                    assert(leads_to(middle, K::spec_key_hash(before[x as int].0@), x));
                } else {
                    assert(after[x as int] == before[last as int]);
                }
            }
        }
        r
    }
}

impl<K: KeyHash + Eq, V> HashedEntries<K, V> {
    /// The index of the entry stored under `k`, if there is one.
    pub fn find(&self, k: &K) -> (r: Option<usize>)
        requires
            self.wf(),
            key_model::<K>(),
        ensures
            r matches Some(i) ==> i < self@.len() && self@[i as int].0@ == k@,
            r is None ==> !has_key(self@, k@),
    {
        let h = k.key_hash();
        let n = self.entries.len();
        match self.index.get(&h) {
            Some(places) => {
                let mut c: usize = 0;
                while c < places.len()
                    invariant
                        c <= places.len(),
                        n == self.entries@.len(),
                        key_model::<K>(),
                        forall|d: int|
                            0 <= d < c && places@[d] < self.entries@.len()
                                ==> self.entries@[places@[d] as int].0@ != k@,
                    decreases places.len() - c,
                {
                    let j = places[c];
                    if j < n {
                        if self.entries[j].0 == *k {
                            assert(self.entries@[j as int].0.eq_spec(k));
                            return Some(j);
                        }
                        assert(!self.entries@[j as int].0.eq_spec(k));
                    }
                    c += 1;
                }
                proof {
                    assert forall|j: int| 0 <= j < self@.len() implies (#[trigger] self@[j]).0@
                        != k@ by {
                        if self@[j].0@ == k@ {
                            assert(leads_to(
                                self.index@,
                                K::spec_key_hash(self@[j].0@),
                                j as usize,
                            ));
                            let d = choose|d: int| 0 <= d < places@.len() && places@[d] == j;
                            assert(self.entries@[places@[d] as int].0@ != k@);
                        }
                    }
                }
                None
            },
            None => {
                proof {
                    assert forall|j: int| 0 <= j < self@.len() implies (#[trigger] self@[j]).0@
                        != k@ by {
                        if self@[j].0@ == k@ {
                            assert(leads_to(
                                self.index@,
                                K::spec_key_hash(self@[j].0@),
                                j as usize,
                            ));
                        }
                    }
                }
                None
            },
        }
    }
}

} // verus!
