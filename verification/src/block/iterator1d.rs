//! Region views over a one-dimensional block.
//!
//! A view walks a range of cells. Each step yields the tail of the block's
//! buffer that starts at the current cell, so that adding a variable's offset
//! to index 0 of the tail reaches that variable of the cell.
use vstd::prelude::*;

verus! {

/// A read-only view over a range of cells of a block.
pub struct Iterator1D<'a, T> {
    pub data: &'a Vec<T>,
    pub current: usize,
    pub end: usize,
}

impl<'a, T> Iterator1D<'a, T> {
    /// The range lies inside the buffer.
    pub open spec fn wf(&self) -> bool {
        self.end <= self.data@.len()
    }

    /// Number of cells that are still to come.
    pub open spec fn remaining(&self) -> nat {
        if self.current < self.end {
            (self.end - self.current) as nat
        } else {
            0
        }
    }

    /// Steps to the next cell of the range and returns the tail of the buffer
    /// that starts there, or `None` once the range is used up.
    pub fn next(&mut self) -> (r: Option<&'a [T]>)
        requires
            old(self).wf(),
        ensures
            final(self).wf(),
            r is None <==> old(self).remaining() == 0,
            r is None ==> *final(self) == *old(self),
            r matches Some(cell) ==> {
                &&& cell@ == old(self).data@.subrange(old(self).current as int, old(self).data@.len() as int)
                &&& final(self).current == old(self).current + 1
                &&& final(self).remaining() == old(self).remaining() - 1
                &&& final(self).data == old(self).data
                &&& final(self).end == old(self).end
            },
    {
        if self.current < self.end {
            let index: usize = self.current;
            self.current += 1;
            let data: &'a Vec<T> = self.data;
            Some(vstd::slice::slice_subrange(data.as_slice(), index, data.len()))
        } else {
            None
        }
    }
}

/// An exclusive view over a range of cells of a block.
///
/// Each step lends out the tail of the buffer that starts at the current
/// cell. The loan ends before the next step, so at any time at most one cell
/// of the block is open for writing.
pub struct Iterator1DMut<'a, T> {
    pub data: &'a mut Vec<T>,
    pub current: usize,
    pub end: usize,
}

impl<'a, T> Iterator1DMut<'a, T> {
    /// The range lies inside the buffer.
    pub open spec fn wf(&self) -> bool {
        self.end <= self.data@.len()
    }

    /// Number of cells that are still to come.
    pub open spec fn remaining(&self) -> nat {
        if self.current < self.end {
            (self.end - self.current) as nat
        } else {
            0
        }
    }

    /// Steps to the next cell of the range and lends out the tail of the
    /// buffer that starts there, or returns `None` once the range is used up.
    /// What the caller writes through the loan is what the buffer holds from
    /// that cell on; the elements before the cell keep their values.
    pub fn next(&mut self) -> (r: Option<&mut [T]>)
        requires
            old(self).wf(),
        ensures
            r is None <==> old(self).remaining() == 0,
            r is None ==> final(self).data@ == old(self).data@,
            r is None ==> final(self).current == old(self).current,
            r matches Some(cell) ==> {
                &&& cell@ == old(self).data@.subrange(old(self).current as int, old(self).data@.len() as int)
                &&& final(self).data@ == old(self).data@.subrange(0, old(self).current as int)
                    + final(cell)@
                &&& final(self).current == old(self).current + 1
                &&& final(self).remaining() == old(self).remaining() - 1
            },
            final(self).end == old(self).end,
            *final(final(self).data) == *final(old(self).data),
    {
        if self.current < self.end {
            let index: usize = self.current;
            self.current += 1;
            let (_, cell) = self.data.as_mut_slice().split_at_mut(index);
            Some(cell)
        } else {
            None
        }
    }
}

} // verus!
