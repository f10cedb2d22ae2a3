//! A cursor over a borrowed slice.

use vstd::prelude::*;
use vstd::std_specs::cmp::PartialEqSpec;

verus! {

/// A read position in a borrowed slice.
///
/// The position may run past the end of the data; the stream is then at its end.
#[derive(Debug)]
pub struct Stream<'a, T> {
    /// The current position.
    pub idx: usize,
    /// The data the stream runs over.
    pub data: &'a [T],
}

impl<'a, T> View for Stream<'a, T> {
    type V = Seq<T>;

    /// The whole of the underlying data, whatever the position.
    open spec fn view(&self) -> Seq<T> {
        self.data@
    }
}

impl<'a, T: Copy> Stream<'a, T> {
    /// Returns a copy of the current element.
    pub fn current_cpy(&self) -> (r: Option<T>)
        ensures
            r == self.spec_current(),
            r is Some ==> self.idx < usize::MAX,
    {
        if self.idx < self.data.len() {
            Some(self.data[self.idx])
        } else {
            None
        }
    }
}

impl<'a, T: Eq + Copy> Stream<'a, T> {
    /// Whether the stream stands on an element equal to `expect`.
    pub open spec fn spec_at(&self, expect: T) -> bool {
        self.spec_current() matches Some(c) && c.eq_spec(&expect)
    }

    /// Whether the stream stands on an element equal to one of `expect`.
    pub open spec fn spec_at_one_of(&self, expect: Seq<T>) -> bool {
        self.spec_current() matches Some(c) && spec_one_of(c, expect)
    }

    /// Steps over the current element if it equals `expect`, and returns it in that case.
    pub fn expect_and_skip(&mut self, expect: T) -> (r: Option<T>)
        requires
            T::obeys_eq_spec(),
        ensures
            final(self)@ == old(self)@,
            old(self).spec_at(expect) ==> r == old(self).spec_current()
                && final(self).idx == old(self).idx + 1,
            !old(self).spec_at(expect) ==> r is None && final(self).idx == old(self).idx,
    {
        if self.idx < self.data.len() {
            let c = self.data[self.idx];
            if c == expect {
                self.idx = self.idx + 1;
                Some(c)
            } else {
                None
            }
        } else {
            None
        }
    }

    /// Steps over the current element if it equals one of `expect`, and returns it in that
    /// case.
    pub fn expect_oneof_and_skip(&mut self, expect: &[T]) -> (r: Option<T>)
        requires
            T::obeys_eq_spec(),
        ensures
            final(self)@ == old(self)@,
            old(self).spec_at_one_of(expect@) ==> r == old(self).spec_current()
                && final(self).idx == old(self).idx + 1,
            !old(self).spec_at_one_of(expect@) ==> r is None && final(self).idx == old(self).idx,
    {
        if self.idx < self.data.len() {
            let c = self.data[self.idx];
            let mut i: usize = 0;
            while i < expect.len()
                invariant
                    T::obeys_eq_spec(),
                    i <= expect.len(),
                    forall|j: int| 0 <= j < i ==> !c.eq_spec(&#[trigger] expect@[j]),
                    self.idx < self.data.len(),
                    c == self.data@[self.idx as int],
                    *self == *old(self),
                decreases expect.len() - i,
            {
                if c == expect[i] {
                    self.idx = self.idx + 1;
                    return Some(c);
                }
                i += 1;
            }
            None
        } else {
            None
        }
    }

    /// Like [`Stream::expect_and_skip`], but only tells whether it stepped.
    pub fn expect_and_skip_cond(&mut self, expect: T) -> (r: bool)
        requires
            T::obeys_eq_spec(),
        ensures
            final(self)@ == old(self)@,
            r == old(self).spec_at(expect),
            final(self).idx == if r {
                old(self).idx + 1
            } else {
                old(self).idx as int
            },
    {
        self.expect_and_skip(expect).is_some()
    }
}

/// Whether `c` equals one of the elements of `set`.
pub open spec fn spec_one_of<T: PartialEq>(c: T, set: Seq<T>) -> bool {
    exists|j: int| 0 <= j < set.len() && c.eq_spec(&#[trigger] set[j])
}

impl<'a, T> Stream<'a, T> {
    /// The element at the current position, if the stream is not at its end.
    pub open spec fn spec_current(&self) -> Option<T> {
        if self.idx < self@.len() {
            Some(self@[self.idx as int])
        } else {
            None
        }
    }

    /// Creates a stream at the start of `data`.
    pub fn new(data: &'a [T]) -> (r: Stream<'a, T>)
        ensures
            r@ == data@,
            r.idx == 0,
    {
        Self { data, idx: 0 }
    }

    /// The length of the underlying data.
    pub fn len(&self) -> (r: usize)
        ensures
            r == self@.len(),
    {
        self.data.len()
    }

    /// The underlying data.
    pub fn data(&self) -> (r: &'a [T])
        ensures
            r@ == self@,
    {
        self.data
    }

    /// Moves the position forward by one.
    pub fn advance(&mut self)
        requires
            old(self).idx < usize::MAX,
        ensures
            final(self)@ == old(self)@,
            final(self).idx == old(self).idx + 1,
    {
        self.idx += 1;
    }

    /// Moves the position forward by `step`.
    pub fn advance_by(&mut self, step: usize)
        requires
            old(self).idx + step <= usize::MAX,
        ensures
            final(self)@ == old(self)@,
            final(self).idx == old(self).idx + step,
    {
        self.idx += step;
    }

    /// A reference to the current element.
    pub fn current(&self) -> (r: Option<&T>)
        ensures
            r == match self.spec_current() {
                Some(c) => Some(&c),
                None => None,
            },
    {
        if self.idx < self.data.len() {
            Some(&self.data[self.idx])
        } else {
            None
        }
    }

    /// Whether the position is at or past the end of the data.
    pub fn is_eof(&self) -> (r: bool)
        ensures
            r == (self.idx >= self@.len()),
    {
        self.idx >= self.data.len()
    }

    /// The elements from `from` up to, not including, `to`.
    pub fn slice(&self, from: usize, to: usize) -> (r: &'a [T])
        requires
            from <= to <= self@.len(),
        ensures
            r@ == self@.subrange(from as int, to as int),
    {
        vstd::slice::slice_subrange(self.data, from, to)
    }

    /// Like [`Stream::slice`], with `to` cut at the length of the data.
    pub fn slice_checked(&self, from: usize, to: usize) -> (r: &'a [T])
        requires
            from <= to,
            from <= self@.len(),
        ensures
            r@ == self@.subrange(from as int, spec_min(to as int, self@.len() as int)),
    {
        let end = if to < self.data.len() {
            to
        } else {
            self.data.len()
        };
        vstd::slice::slice_subrange(self.data, from, end)
    }

    /// The elements from `from` up to `len` past the current position, cut at the length of
    /// the data.
    pub fn slice_len(&self, from: usize, len: usize) -> (r: &'a [T])
        requires
            from <= self.idx + len <= usize::MAX,
            from <= self@.len(),
        ensures
            r@ == self@.subrange(from as int, spec_min(self.idx + len, self@.len() as int)),
    {
        self.slice_checked(from, self.idx + len)
    }
}

/// The smaller of `a` and `b`.
pub open spec fn spec_min(a: int, b: int) -> int {
    if a <= b {
        a
    } else {
        b
    }
}

} // verus!
