//! A buffer that only grows, and views of it that stay good while it
//! grows.

use vstd::prelude::*;

verus! {

/// A growable buffer to which values are only ever added, so that a view
/// of what it holds stays good.
#[derive(Debug)]
pub struct AtomicBuffer<T> {
    data: Vec<T>,
}

/// A view of the values of an [`AtomicBuffer`] from position `str` to
/// position `end`, both included.
#[derive(Debug, Clone, Copy, PartialEq, Eq, Structural)]
pub struct AtomicSlice {
    pub str: usize,
    pub end: usize,
}

impl<T: Copy> AtomicBuffer<T> {
    /// The values of the buffer, in the order in which they were added.
    pub closed spec fn values(&self) -> Seq<T> {
        self.data@
    }

    /// An empty buffer.
    pub fn new() -> (buffer: Self)
        ensures
            buffer.values() == Seq::<T>::empty(),
    {
        AtomicBuffer { data: Vec::new() }
    }

    /// Adds a value at the end.
    pub fn push(&mut self, value: T)
        ensures
            final(self).values() == old(self).values().push(value),
    {
        self.data.push(value);
    }

    /// How many values the buffer holds.
    pub fn len(&self) -> (n: usize)
        ensures
            n == self.values().len(),
    {
        self.data.len()
    }

    /// The view from position `str` to position `end`, both included.
    pub fn get_slice(&self, str: usize, end: usize) -> (slice: AtomicSlice)
        ensures
            slice == (AtomicSlice { str, end }),
    {
        AtomicSlice { str, end }
    }
}

impl AtomicSlice {
    /// Whether the buffer `buffer` holds all the positions of the view.
    pub open spec fn within<T: Copy>(&self, buffer: &AtomicBuffer<T>) -> bool {
        self.str <= self.end < buffer.values().len()
    }

    /// What the view shows of `buffer`.
    pub open spec fn shown<T: Copy>(&self, buffer: &AtomicBuffer<T>) -> Seq<T>
        recommends
            self.within(buffer),
    {
        buffer.values().subrange(self.str as int, self.end + 1)
    }

    /// Whether the buffer `buffer` holds all the positions of the view.
    pub fn fits<T: Copy>(&self, buffer: &AtomicBuffer<T>) -> (b: bool)
        ensures
            b == self.within(buffer),
    {
        self.str <= self.end && self.end < buffer.len()
    }

    /// A copy of what the view shows of `buffer`.
    pub fn to_vec<T: Copy>(&self, buffer: &AtomicBuffer<T>) -> (values: Vec<T>)
        requires
            self.within(buffer),
        ensures
            values@ == self.shown(buffer),
    {
        let mut values: Vec<T> = Vec::new();
        let mut i: usize = self.str;
        assert(buffer.data.len() == buffer.data@.len());
        while i <= self.end
            invariant
                self.str <= i <= self.end + 1,
                self.end < buffer.data@.len() <= usize::MAX,
                values@ == buffer.data@.subrange(self.str as int, i as int),
            decreases self.end + 1 - i,
        {
            values.push(buffer.data[i]);
            assert(values@ =~= buffer.data@.subrange(self.str as int, i + 1));
            i += 1;
        }
        values
    }
}

/// A view shows the same after a value was added to the buffer.
pub proof fn lemma_view_stays<T: Copy>(
    slice: AtomicSlice,
    before: &AtomicBuffer<T>,
    after: &AtomicBuffer<T>,
    value: T,
)
    requires
        slice.within(before),
        after.values() == before.values().push(value),
    ensures
        slice.within(after),
        slice.shown(after) == slice.shown(before),
{
    assert(slice.shown(after) =~= slice.shown(before));
}

} // verus!
