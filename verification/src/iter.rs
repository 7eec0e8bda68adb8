//! Iteration for [`UnthBuf`].

use vstd::prelude::*;

use crate::{CellLayout, UnthBuf};

verus! {

/// Iterator over an [`UnthBuf`]: yields every element, front to back.
pub struct UnthBufIter<'buf, CL: CellLayout> {
    /// The [`UnthBuf`] to iterate over.
    pub buf: &'buf UnthBuf<CL>,
    /// The current index.
    pub idx: usize,
    /// The maximum index.
    pub cap: usize,
}

impl<'buf, CL: CellLayout> UnthBufIter<'buf, CL> {
    /// The iterator walks a well-formed buffer and its bounds are the
    /// buffer's.
    pub open spec fn wf(&self) -> bool {
        &&& self.buf.wf()
        &&& self.cap == self.buf.capacity
        &&& self.idx <= self.cap
    }

    /// The elements not yet yielded, in the order they will come out.
    pub open spec fn remaining(&self) -> Seq<u64> {
        self.buf@.subrange(self.idx as int, self.cap as int)
    }

    /// Yields the next element, or [`Option::None`] once every element
    /// has been yielded.
    pub fn next(&mut self) -> (item: Option<u64>)
        requires
            old(self).wf(),
        ensures
            final(self).wf(),
            final(self).buf == old(self).buf,
            old(self).idx < old(self).cap ==> item == Some(old(self).buf@[old(self).idx as int])
                && final(self).idx == old(self).idx + 1,
            old(self).idx >= old(self).cap ==> item == None::<u64> && *final(self) == *old(self),
    {
        if !(self.idx < self.cap) {
            return None;
        }
        // This is in bounds due to the above range-check.
        let item = self.buf.get_unchecked(self.idx);
        // On to the next item!
        self.idx = self.idx + 1;
        Some(item)
    }

    /// How many elements are still to come.
    pub fn len(&self) -> (len: usize)
        requires
            self.wf(),
        ensures
            len == self.remaining().len(),
    {
        self.cap - self.idx
    }
}

impl<CL: CellLayout> UnthBuf<CL> {
    /// Returns an iterator that yields all elements contained in this
    /// buffer.
    pub fn iter(&self) -> (it: UnthBufIter<'_, CL>)
        requires
            self.wf(),
        ensures
            it.wf(),
            it.buf == self,
            it.idx == 0,
            it.remaining() == self@,
    {
        let it = UnthBufIter { idx: 0, cap: self.capacity, buf: self };
        proof {
            assert(it.remaining() =~= self@);
        }
        it
    }
}

} // verus!
