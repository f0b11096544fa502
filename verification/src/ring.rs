use vstd::prelude::*;
use std::collections::VecDeque;

verus! {

/// A fixed-capacity first-in first-out buffer.
///
/// The backing storage is sized once at construction and never grows past the
/// chosen capacity: a push onto a full buffer is rejected by handing the item
/// back to the caller, and a pop from an empty buffer yields nothing.
pub struct RingBuf<T> {
    cap: usize,
    data: VecDeque<T>,
}

impl<T> RingBuf<T> {
    /// The items currently buffered, oldest first.
    pub closed spec fn view(&self) -> Seq<T> {
        self.data@
    }

    /// The fixed capacity chosen at construction.
    pub closed spec fn cap(&self) -> nat {
        self.cap as nat
    }

    /// Occupancy never exceeds the capacity.
    pub open spec fn wf(&self) -> bool {
        self@.len() <= self.cap()
    }

    pub fn new(cap: usize) -> (r: Self)
        ensures
            r.wf(),
            r@ == Seq::<T>::empty(),
            r.cap() == cap,
    {
        RingBuf { cap, data: VecDeque::with_capacity(cap) }
    }

    pub fn len(&self) -> (r: usize)
        ensures
            r == self@.len(),
    {
        self.data.len()
    }

    /// How many more items fit before the buffer is full.
    pub fn remaining(&self) -> (r: usize)
        requires
            self.wf(),
        ensures
            r == self.cap() - self@.len(),
    {
        self.cap - self.data.len()
    }

    pub fn is_empty(&self) -> (r: bool)
        ensures
            r == (self@.len() == 0),
    {
        self.data.len() == 0
    }

    /// Append an item if there is room; a full buffer rejects the item by
    /// returning it unchanged, with no other effect.
    pub fn push_back(&mut self, item: T) -> (r: Option<T>)
        requires
            old(self).wf(),
        ensures
            final(self).wf(),
            final(self).cap() == old(self).cap(),
            old(self)@.len() < old(self).cap() ==> r is None && final(self)@ == old(self)@.push(
                item,
            ),
            old(self)@.len() >= old(self).cap() ==> r == Some(item) && final(self)@ == old(
                self,
            )@,
    {
        if self.data.len() < self.cap {
            self.data.push_back(item);
            None
        } else {
            Some(item)
        }
    }

    /// Remove and return the oldest item, if any.
    pub fn pop_front(&mut self) -> (r: Option<T>)
        ensures
            final(self).cap() == old(self).cap(),
            old(self).wf() ==> final(self).wf(),
            old(self)@.len() > 0 ==> r == Some(old(self)@[0]) && final(self)@ == old(
                self,
            )@.drop_first(),
            old(self)@.len() == 0 ==> r is None && final(self)@ == old(self)@,
    {
        self.data.pop_front()
    }
}

} // verus!
