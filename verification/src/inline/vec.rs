//! A vector that holds up to `N` elements in place.

use crate::inline::fresh;
use crate::inline::uninit_array;
use vstd::prelude::*;

verus! {

/// The storage of an [`InlineVec`].
///
/// While `Inline`, the elements are the first `len` slots of `data`; the other slots hold
/// values that mean nothing. Once `Heap`, the vector never goes back.
#[derive(Debug)]
pub enum InlineVecInner<T, const N: usize> {
    /// Up to `N` elements, stored in place.
    Inline {
        /// The number of elements.
        len: usize,
        /// The slots.
        data: [T; N],
    },
    /// Any number of elements, stored on the heap.
    Heap(Vec<T>),
}

impl<T, const N: usize> View for InlineVecInner<T, N> {
    type V = Seq<T>;

    open spec fn view(&self) -> Seq<T> {
        match *self {
            InlineVecInner::Inline { len, data } => data@.subrange(0, len as int),
            InlineVecInner::Heap(v) => v@,
        }
    }
}

impl<T: Default, const N: usize> InlineVecInner<T, N> {
    /// An inline vector never claims more elements than it has slots.
    pub open spec fn wf(&self) -> bool {
        match *self {
            InlineVecInner::Inline { len, data } => len <= N,
            InlineVecInner::Heap(v) => true,
        }
    }

    /// Whether the elements are stored on the heap.
    pub open spec fn spec_is_heap_allocated(&self) -> bool {
        *self is Heap
    }

    /// Creates an empty vector, stored in place.
    pub fn new() -> (r: Self)
        ensures
            r.wf(),
            r@ == Seq::<T>::empty(),
            !r.spec_is_heap_allocated(),
    {
        let r = InlineVecInner::Inline { len: 0, data: uninit_array() };
        assert(r@ =~= Seq::<T>::empty());
        r
    }

    /// The elements as a slice.
    pub fn as_slice(&self) -> (r: &[T])
        requires
            self.wf(),
        ensures
            r@ == self@,
    {
        match self {
            InlineVecInner::Heap(v) => v.as_slice(),
            InlineVecInner::Inline { len, data } => vstd::slice::slice_subrange(
                data.as_slice(),
                0,
                *len,
            ),
        }
    }

    /// The slots and the number of elements, while the vector is stored in place.
    ///
    /// The caller may write to the slots; what the vector then holds is read from them.
    pub fn inline_parts_mut(&mut self) -> (r: Option<(&mut [T; N], usize)>)
        ensures
            old(self).spec_is_heap_allocated() ==> r is None && *final(self) == *old(self),
            !old(self).spec_is_heap_allocated() ==> r is Some && *old(self) == (
            InlineVecInner::Inline { len: r.unwrap().1, data: *r.unwrap().0 })
                && *final(self) == (InlineVecInner::<T, N>::Inline {
                len: r.unwrap().1,
                data: *final(r.unwrap().0),
            }),
    {
        match self {
            InlineVecInner::Heap(_) => None,
            InlineVecInner::Inline { len, data } => Some((data, *len)),
        }
    }

    /// Copies the elements into a new `Vec`.
    pub fn to_vec(&self) -> (r: Vec<T>) where T: Clone
        requires
            self.wf(),
        ensures
            r@.len() == self@.len(),
            forall|i: int| 0 <= i < r@.len() ==> cloned(#[trigger] self@[i], r@[i]),
    {
        let src = self.as_slice();
        let mut out: Vec<T> = Vec::with_capacity(src.len());
        let mut i: usize = 0;
        while i < src.len()
            invariant
                i <= src.len(),
                out@.len() == i,
                src@ == self@,
                forall|j: int| 0 <= j < i ==> cloned(#[trigger] self@[j], out@[j]),
            decreases src.len() - i,
        {
            out.push(src[i].clone());
            i += 1;
        }
        out
    }

    /// An iterator over the elements, first to last.
    pub fn iter(&self) -> (r: InlineVecIter<'_, T, N>)
        requires
            self.wf(),
        ensures
            r.wf(),
            r.spec_rest() == self@,
    {
        let r = InlineVecIter { vec: self, idx: 0 };
        assert(r.spec_rest() =~= self@);
        r
    }

    /// The number of elements.
    pub fn len(&self) -> (r: usize)
        requires
            self.wf(),
        ensures
            r == self@.len(),
    {
        match self {
            InlineVecInner::Inline { len, .. } => *len,
            InlineVecInner::Heap(v) => v.len(),
        }
    }

    /// The element at `idx`, if there is one.
    pub fn get(&self, idx: usize) -> (r: Option<&T>)
        requires
            self.wf(),
        ensures
            r == if idx < self@.len() {
                Some(&self@[idx as int])
            } else {
                None
            },
    {
        match self {
            InlineVecInner::Inline { data, len } => {
                if idx < *len {
                    Some(&data[idx])
                } else {
                    None
                }
            },
            InlineVecInner::Heap(v) => {
                if idx < v.len() {
                    Some(&v[idx])
                } else {
                    None
                }
            },
        }
    }

    /// The element at `idx` for writing, if there is one.
    pub fn get_mut(&mut self, idx: usize) -> (r: Option<&mut T>)
        requires
            old(self).wf(),
        ensures
            final(self).wf(),
            final(self).spec_is_heap_allocated() == old(self).spec_is_heap_allocated(),
            idx >= old(self)@.len() ==> r is None && final(self)@ == old(self)@,
            idx < old(self)@.len() ==> r is Some && *r.unwrap() == old(self)@[idx as int]
                && final(self)@ == old(self)@.update(idx as int, *final(r.unwrap())),
    {
        match self {
            InlineVecInner::Inline { data, len } => {
                if idx < *len {
                    let ghost before = *data;
                    let ghost n = *len;
                    let slot = &mut data[idx];
                    proof {
                        assert(before@.update(idx as int, *final(slot)).subrange(0, n as int)
                            =~= before@.subrange(0, n as int).update(idx as int, *final(slot)));
                    }
                    Some(slot)
                } else {
                    None
                }
            },
            InlineVecInner::Heap(v) => {
                if idx < v.len() {
                    Some(&mut v[idx])
                } else {
                    None
                }
            },
        }
    }

    /// Removes the element at `idx` and returns it; the elements after it move down by one.
    pub fn remove(&mut self, idx: usize) -> (r: T)
        requires
            old(self).wf(),
            idx < old(self)@.len(),
        ensures
            final(self).wf(),
            final(self).spec_is_heap_allocated() == old(self).spec_is_heap_allocated(),
            r == old(self)@[idx as int],
            final(self)@ == old(self)@.remove(idx as int),
    {
        match self {
            InlineVecInner::Inline { data, len } => {
                let ghost before = *data;
                let n = *len;
                let mut element = fresh::<T>();
                core::mem::swap(&mut element, &mut data[idx]);
                let mut i: usize = idx + 1;
                while i < n
                    invariant
                        idx < i <= n <= N,
                        forall|j: int| 0 <= j < idx ==> #[trigger] data@[j] == before@[j],
                        forall|j: int| idx <= j < i - 1 ==> #[trigger] data@[j] == before@[j + 1],
                        forall|j: int| i <= j < N ==> #[trigger] data@[j] == before@[j],
                    decreases n - i,
                {
                    let mut hole = fresh::<T>();
                    core::mem::swap(&mut hole, &mut data[i]);
                    core::mem::swap(&mut hole, &mut data[i - 1]);
                    i += 1;
                }
                *len = n - 1;
                proof {
                    assert(data@.subrange(0, n - 1) =~= before@.subrange(0, n as int).remove(
                        idx as int,
                    ));
                }
                element
            },
            InlineVecInner::Heap(v) => v.remove(idx),
        }
    }

    /// Appends `value`.
    ///
    /// A vector stored in place that is already full moves to the heap first.
    pub fn push(&mut self, value: T)
        requires
            old(self).wf(),
        ensures
            final(self).wf(),
            final(self)@ == old(self)@.push(value),
            final(self).spec_is_heap_allocated() == (old(self).spec_is_heap_allocated() || old(
                self,
            )@.len() >= N),
    {
        let mut promoted: Option<Vec<T>> = None;
        match self {
            InlineVecInner::Heap(v) => {
                v.push(value);
                return ;
            },
            InlineVecInner::Inline { data, len } => {
                let n = *len;
                if n >= N {
                    let ghost before = *data;
                    let room = if n < usize::MAX {
                        n + 1
                    } else {
                        n
                    };
                    let mut v: Vec<T> = Vec::with_capacity(room);
                    let mut i: usize = 0;
                    while i < n
                        invariant
                            i <= n == N,
                            v@.len() == i,
                            forall|j: int| 0 <= j < i ==> #[trigger] v@[j] == before@[j],
                            forall|j: int| i <= j < N ==> #[trigger] data@[j] == before@[j],
                        decreases n - i,
                    {
                        let mut element = fresh::<T>();
                        core::mem::swap(&mut element, &mut data[i]);
                        v.push(element);
                        i += 1;
                    }
                    v.push(value);
                    proof {
                        assert(v@ =~= before@.subrange(0, n as int).push(value));
                    }
                    promoted = Some(v);
                } else {
                    let ghost before = *data;
                    data[n] = value;
                    *len = n + 1;
                    proof {
                        assert(data@.subrange(0, n + 1) =~= before@.subrange(0, n as int).push(
                            value,
                        ));
                    }
                }
            },
        }
        if let Some(v) = promoted {
            *self = InlineVecInner::Heap(v);
        }
    }

    /// Checks whether the elements are stored on the heap.
    #[verifier::when_used_as_spec(spec_is_heap_allocated)]
    pub fn is_heap_allocated(&self) -> (r: bool)
        ensures
            r == self.spec_is_heap_allocated(),
    {
        match self {
            InlineVecInner::Heap(_) => true,
            InlineVecInner::Inline { .. } => false,
        }
    }
}

impl<T: Clone + Default, const N: usize> Clone for InlineVecInner<T, N> {
    /// Clones element by element and keeps the representation.
    fn clone(&self) -> (r: Self)
        ensures
            self.wf() ==> {
                &&& r.wf()
                &&& r.spec_is_heap_allocated() == self.spec_is_heap_allocated()
                &&& r@.len() == self@.len()
                &&& forall|i: int| 0 <= i < r@.len() ==> cloned(#[trigger] self@[i], r@[i])
            },
    {
        match self {
            InlineVecInner::Heap(v) => {
                let mut out: Vec<T> = Vec::with_capacity(v.len());
                let mut i: usize = 0;
                while i < v.len()
                    invariant
                        i <= v.len(),
                        out@.len() == i,
                        forall|j: int| 0 <= j < i ==> cloned(#[trigger] v@[j], out@[j]),
                    decreases v.len() - i,
                {
                    out.push(v[i].clone());
                    i += 1;
                }
                InlineVecInner::Heap(out)
            },
            InlineVecInner::Inline { len, data } => {
                let mut new_data: [T; N] = uninit_array();
                let n = if *len <= N {
                    *len
                } else {
                    N
                };
                let mut i: usize = 0;
                while i < n
                    invariant
                        i <= n <= N,
                        forall|j: int| 0 <= j < i ==> cloned(#[trigger] data@[j], new_data@[j]),
                    decreases n - i,
                {
                    new_data[i] = data[i].clone();
                    i += 1;
                }
                InlineVecInner::Inline { len: n, data: new_data }
            },
        }
    }
}

/// An iterator over the elements of an inline vector.
pub struct InlineVecIter<'a, T, const N: usize> {
    vec: &'a InlineVecInner<T, N>,
    idx: usize,
}

impl<'a, T: Default, const N: usize> InlineVecIter<'a, T, N> {
    /// The iterator stands on a well-formed vector.
    pub closed spec fn wf(&self) -> bool {
        self.vec.wf()
    }

    /// The elements that are still to come.
    pub closed spec fn spec_rest(&self) -> Seq<T> {
        if self.idx <= self.vec@.len() {
            self.vec@.subrange(self.idx as int, self.vec@.len() as int)
        } else {
            Seq::empty()
        }
    }

    /// The next element, if any is left.
    pub fn next(&mut self) -> (r: Option<&'a T>)
        requires
            old(self).wf(),
        ensures
            final(self).wf(),
            old(self).spec_rest().len() == 0 ==> r is None && final(self).spec_rest().len() == 0,
            old(self).spec_rest().len() > 0 ==> r == Some(&old(self).spec_rest()[0])
                && final(self).spec_rest() == old(self).spec_rest().drop_first(),
    {
        if self.idx < self.vec.len() {
            let r = self.vec.get(self.idx);
            self.idx = self.idx + 1;
            assert(self.spec_rest() =~= old(self).spec_rest().drop_first());
            r
        } else {
            None
        }
    }
}

/// A vector that keeps up to `N` elements in place and moves to the heap beyond that.
#[derive(Debug)]
pub struct InlineVec<T, const N: usize>(InlineVecInner<T, N>);

impl<T, const N: usize> View for InlineVec<T, N> {
    type V = Seq<T>;

    closed spec fn view(&self) -> Seq<T> {
        self.0@
    }
}

impl<T: Default, const N: usize> InlineVec<T, N> {
    /// The number of elements.
    pub open spec fn spec_len(&self) -> nat {
        self@.len()
    }

    /// The element at `index`, if there is one.
    pub open spec fn spec_get(&self, index: usize) -> Option<T> {
        if index < self@.len() {
            Some(self@[index as int])
        } else {
            None
        }
    }

    /// The elements after `value` was pushed.
    pub open spec fn spec_pushed(&self, value: T) -> Seq<T> {
        self@.push(value)
    }

    /// The elements after the one at `index` was removed.
    pub open spec fn spec_removed(&self, index: usize) -> Seq<T> {
        self@.remove(index as int)
    }

    /// The storage is well-formed.
    pub closed spec fn wf(&self) -> bool {
        self.0.wf()
    }

    /// Whether the elements are stored on the heap.
    pub closed spec fn spec_is_heap_allocated(&self) -> bool {
        self.0.spec_is_heap_allocated()
    }

    /// Creates an empty vector, stored in place.
    pub fn new() -> (r: Self)
        ensures
            r.wf(),
            r@ == Seq::<T>::empty(),
            !r.spec_is_heap_allocated(),
    {
        Self(InlineVecInner::new())
    }

    /// Returns the number of elements in the vector.
    pub fn len(&self) -> (r: usize)
        requires
            self.wf(),
        ensures
            r == self.spec_len(),
    {
        self.0.len()
    }

    /// Checks whether this vector is allocated on the heap.
    #[verifier::when_used_as_spec(spec_is_heap_allocated)]
    pub fn is_heap_allocated(&self) -> (r: bool)
        ensures
            r == self.spec_is_heap_allocated(),
    {
        self.0.is_heap_allocated()
    }

    /// The slots and the number of elements, while the vector is stored in place.
    pub fn inline_parts_mut(&mut self) -> (r: Option<(&mut [T; N], usize)>)
        ensures
            r is None <==> old(self).spec_is_heap_allocated(),
            r is None ==> *final(self) == *old(self),
            r is Some ==> old(self)@ == r.unwrap().0@.subrange(0, r.unwrap().1 as int)
                && final(self)@ == final(r.unwrap().0)@.subrange(0, r.unwrap().1 as int)
                && (old(self).wf() ==> final(self).wf() && r.unwrap().1 <= N),
    {
        self.0.inline_parts_mut()
    }

    /// Copies `self` into a new `Vec<T>`.
    pub fn to_vec(&self) -> (r: Vec<T>) where T: Clone
        requires
            self.wf(),
        ensures
            r@.len() == self@.len(),
            forall|i: int| 0 <= i < r@.len() ==> cloned(#[trigger] self@[i], r@[i]),
    {
        self.0.to_vec()
    }

    /// Appends a new element to the vector.
    pub fn push(&mut self, value: T)
        requires
            old(self).wf(),
        ensures
            final(self).wf(),
            final(self)@ == old(self).spec_pushed(value),
            final(self).spec_is_heap_allocated() == (old(self).spec_is_heap_allocated() || old(
                self,
            )@.len() >= N),
    {
        self.0.push(value)
    }

    /// Returns a reference to the value at the given index.
    pub fn get(&self, index: usize) -> (r: Option<&T>)
        requires
            self.wf(),
        ensures
            r == match self.spec_get(index) {
                Some(v) => Some(&v),
                None => None,
            },
    {
        self.0.get(index)
    }

    /// Returns a mutable reference to the value at the given index.
    pub fn get_mut(&mut self, index: usize) -> (r: Option<&mut T>)
        requires
            old(self).wf(),
        ensures
            final(self).wf(),
            final(self).spec_is_heap_allocated() == old(self).spec_is_heap_allocated(),
            index >= old(self)@.len() ==> r is None && final(self)@ == old(self)@,
            index < old(self)@.len() ==> r is Some && *r.unwrap() == old(self)@[index as int]
                && final(self)@ == old(self)@.update(index as int, *final(r.unwrap())),
    {
        self.0.get_mut(index)
    }

    /// Removes the element at the given index and returns it.
    pub fn remove(&mut self, index: usize) -> (r: T)
        requires
            old(self).wf(),
            index < old(self)@.len(),
        ensures
            final(self).wf(),
            final(self).spec_is_heap_allocated() == old(self).spec_is_heap_allocated(),
            Some(r) == old(self).spec_get(index),
            final(self)@ == old(self).spec_removed(index),
    {
        self.0.remove(index)
    }

    /// Returns an iterator over the elements of this vector.
    pub fn iter(&self) -> (r: InlineVecIter<'_, T, N>)
        requires
            self.wf(),
        ensures
            r.wf(),
            r.spec_rest() == self@,
    {
        self.0.iter()
    }

    /// Returns a slice to the contents of this vector.
    pub fn as_slice(&self) -> (r: &[T])
        requires
            self.wf(),
        ensures
            r@ == self@,
    {
        self.0.as_slice()
    }
}

/// What a vector shows of itself does not depend on where it stores its elements: two
/// vectors with the same elements, one stored in place and one on the heap, have the same
/// length, give the same element at every index, and come out the same after the same push
/// or removal. Only `is_heap_allocated` tells them apart.
pub proof fn lemma_representation_is_not_observable<T: Default, const N: usize, const M: usize>(
    a: InlineVec<T, N>,
    b: InlineVec<T, M>,
    i: usize,
    value: T,
)
    requires
        a.wf(),
        b.wf(),
        a@ == b@,
        !a.spec_is_heap_allocated(),
        b.spec_is_heap_allocated(),
    ensures
        a.spec_len() == b.spec_len(),
        a.spec_get(i) == b.spec_get(i),
        a.spec_pushed(value) == b.spec_pushed(value),
        i < a.spec_len() ==> a.spec_removed(i) == b.spec_removed(i),
{
}

impl<T: Default, const N: usize> core::ops::Index<usize> for InlineVec<T, N> {
    type Output = T;

    /// The element at `idx`, which has to be there.
    fn index(&self, idx: usize) -> (r: &T)
        ensures
            *r == self@[idx as int],
    {
        match self.0.get(idx) {
            Some(v) => v,
            None => vstd::pervasive::unreached(),
        }
    }
}

impl<T: Default, const N: usize> vstd::std_specs::core::IndexSpecImpl<usize> for InlineVec<T, N> {
    open spec fn index_req(&self, index: &usize) -> bool {
        self.wf() && *index < self@.len()
    }
}

impl<T: Default, const N: usize> Default for InlineVec<T, N> {
    /// The empty vector, stored in place.
    fn default() -> (r: Self)
        ensures
            r.wf(),
            r@ == Seq::<T>::empty(),
            !r.spec_is_heap_allocated(),
    {
        InlineVec::new()
    }
}

impl<T: Clone + Default, const N: usize> Clone for InlineVec<T, N> {
    /// Clones element by element and keeps the representation.
    fn clone(&self) -> (r: Self)
        ensures
            self.wf() ==> {
                &&& r.wf()
                &&& r.spec_is_heap_allocated() == self.spec_is_heap_allocated()
                &&& r@.len() == self@.len()
                &&& forall|i: int| 0 <= i < r@.len() ==> cloned(#[trigger] self@[i], r@[i])
            },
    {
        InlineVec(self.0.clone())
    }
}

} // verus!
