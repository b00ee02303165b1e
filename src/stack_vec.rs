//! A vector with fixed capacity whose storage is a caller-supplied slice.

use vstd::prelude::*;

verus! {

/// A contiguous array type backed by a borrowed slice.
///
/// The first `len()` elements of the slice are the vector's items; its
/// capacity is the slice's length, so `push` fails when the vector is full.
#[derive(Debug)]
pub struct StackVec<'a, T: 'a> {
    storage: &'a mut [T],
    len: usize,
}

impl<'a, T: 'a> View for StackVec<'a, T> {
    type V = Seq<T>;

    /// The items of the vector, oldest first.
    closed spec fn view(&self) -> Seq<T> {
        self.storage@.subrange(0, self.len as int)
    }
}

impl<'a, T: 'a> StackVec<'a, T> {
    /// The number of items the vector can hold.
    pub closed spec fn spec_capacity(&self) -> nat {
        self.storage@.len()
    }

    /// The length never exceeds the capacity.
    pub closed spec fn wf(&self) -> bool {
        self.len <= self.storage@.len()
    }

    /// The number of items, at most the capacity.
    pub closed spec fn spec_len(&self) -> nat {
        self.len as nat
    }

    /// A well-formed vector holds at most its capacity.
    pub proof fn lemma_len_bounded(&self)
        requires
            self.wf(),
        ensures
            self@.len() <= self.spec_capacity(),
    {
    }

    /// An empty vector whose capacity is `storage.len()`.
    pub fn new(storage: &'a mut [T]) -> (r: StackVec<'a, T>)
        ensures
            r.wf(),
            r@ == Seq::<T>::empty(),
            r.spec_capacity() == old(storage)@.len(),
    {
        let r = StackVec { storage, len: 0 };
        assert(r@ =~= Seq::<T>::empty());
        r
    }

    /// A vector whose items are the first `len` elements of `storage`, with
    /// capacity `storage.len()`.
    pub fn with_len(storage: &'a mut [T], len: usize) -> (r: StackVec<'a, T>)
        requires
            len <= old(storage)@.len(),
        ensures
            r.wf(),
            r@ == old(storage)@.subrange(0, len as int),
            r.spec_capacity() == old(storage)@.len(),
    {
        StackVec { storage, len }
    }

    /// The number of items the vector can hold.
    pub fn capacity(&self) -> (r: usize)
        ensures
            r == self.spec_capacity(),
    {
        self.storage.len()
    }

    /// Keeps the first `len` items; has no effect when the vector holds no
    /// more than `len` items. The capacity is unchanged.
    pub fn truncate(&mut self, len: usize)
        requires
            old(self).wf(),
        ensures
            final(self).wf(),
            final(self)@ == old(self)@.subrange(0, vstd::math::min(len as int, old(self)@.len() as int)),
            final(self).spec_capacity() == old(self).spec_capacity(),
    {
        if len < self.len {
            self.len = len;
        }
        assert(self@ =~= old(self)@.subrange(0, vstd::math::min(len as int, old(self)@.len() as int)));
    }

    /// The items as a slice, consuming the vector; its length is `len()`, not
    /// the capacity.
    pub fn into_slice(self) -> (r: &'a mut [T])
        requires
            self.wf(),
        ensures
            r@ == self@,
    {
        let len = self.len;
        self.storage.split_at_mut(len).0
    }

    /// The items as a slice.
    pub fn as_slice(&self) -> (r: &[T])
        requires
            self.wf(),
        ensures
            r@ == self@,
    {
        self.storage.split_at(self.len).0
    }

    /// The items as a mutable slice; what is written through it becomes the
    /// vector's items (a slice keeps its length, which the contract states as
    /// a premise).
    pub fn as_mut_slice(&mut self) -> (r: &mut [T])
        requires
            old(self).wf(),
        ensures
            r@ == old(self)@,
            final(r)@.len() == r@.len() ==> final(self).wf() && final(self)@ == final(r)@
                && final(self).spec_capacity() == old(self).spec_capacity(),
    {
        let len = self.len;
        let (front, back) = self.storage.split_at_mut(len);
        proof {
            assert(has_resolved(back));
        }
        front
    }

    /// The number of items.
    pub fn len(&self) -> (r: usize)
        requires
            self.wf(),
        ensures
            r == self@.len(),
            r <= self.spec_capacity(),
    {
        self.len
    }

    /// Whether the vector holds no items.
    pub fn is_empty(&self) -> (r: bool)
        requires
            self.wf(),
        ensures
            r == (self@.len() == 0),
    {
        self.len == 0
    }

    /// Whether the vector is at capacity.
    pub fn is_full(&self) -> (r: bool)
        requires
            self.wf(),
        ensures
            r == (self@.len() == self.spec_capacity()),
    {
        self.len == self.storage.len()
    }

    /// Appends `value` unless the vector is full, in which case it fails and
    /// the vector is unchanged.
    pub fn push(&mut self, value: T) -> (r: Result<(), ()>)
        requires
            old(self).wf(),
        ensures
            final(self).wf(),
            r is Err <==> old(self)@.len() == old(self).spec_capacity(),
            r is Ok <==> old(self)@.len() < old(self).spec_capacity(),
            r is Ok ==> final(self)@ == old(self)@.push(value),
            r is Err ==> final(self)@ == old(self)@,
            final(self).spec_capacity() == old(self).spec_capacity(),
    {
        if self.is_full() {
            Err(())
        } else {
            let len = self.len;
            self.storage[len] = value;
            self.len = len + 1;
            assert(self@ =~= old(self)@.push(value));
            Ok(())
        }
    }
}

impl<'a, T: Clone + 'a> StackVec<'a, T> {
    /// Removes the last item and returns a clone of it, or returns `None`
    /// when the vector is empty.
    pub fn pop(&mut self) -> (r: Option<T>)
        requires
            old(self).wf(),
        ensures
            final(self).wf(),
            final(self).spec_capacity() == old(self).spec_capacity(),
            old(self)@.len() == 0 ==> r is None && final(self)@ == old(self)@,
            old(self)@.len() > 0 ==> r is Some && cloned(old(self)@.last(), r->Some_0)
                && final(self)@ == old(self)@.drop_last(),
    {
        if self.is_empty() {
            None
        } else {
            self.len = self.len - 1;
            let v = self.storage[self.len].clone();
            assert(self@ =~= old(self)@.drop_last());
            Some(v)
        }
    }
}

} // verus!
