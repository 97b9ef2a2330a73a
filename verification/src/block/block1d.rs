//! One-dimensional field storage.
//!
//! A `Block1D` holds `nvar` variables over `dim1` cells that are padded by
//! `nghost` ghost cells on both sides. The buffer is one contiguous vector of
//! `nvar` rows of `len1 = dim1 + 2 * nghost` elements.
use vstd::prelude::*;
use crate::block::block2d::lemma_plane_offset;
use crate::block::iterator1d::{Iterator1D, Iterator1DMut};

verus! {

/// A 1D data block with `nvar` variables, `len1` padded cells and `nghost`
/// ghost cells on each side.
pub struct Block1D<T> {
    pub nvar: usize,
    pub len1: usize,
    pub nghost: usize,
    pub data: Vec<T>,
}

impl<T> Block1D<T> {
    /// The extents are consistent with each other and with the buffer.
    pub open spec fn wf(&self) -> bool {
        &&& 2 * self.nghost <= self.len1
        &&& self.data@.len() == self.nvar * self.len1
    }

    /// Number of active cells.
    pub open spec fn dim1(&self) -> int {
        self.len1 - 2 * self.nghost
    }

    /// A block of `nvar` variables over `dim1` active cells with `nghost`
    /// ghost cells can be addressed with `usize` indices.
    pub open spec fn room_for(nvar: int, dim1: int, nghost: int) -> bool {
        &&& dim1 + 2 * nghost <= usize::MAX
        &&& nvar * (dim1 + 2 * nghost) <= usize::MAX
    }

    /// Every element holds a default value of `T`, and all hold the same.
    pub open spec fn all_default(&self) -> bool where T: Default {
        &&& forall|k: int|
            0 <= k < self.data@.len() ==> call_ensures(T::default, (), #[trigger] self.data@[k])
        &&& forall|k: int| 0 <= k < self.data@.len() ==> #[trigger] self.data@[k] == self.data@[0]
    }

    /// Value of variable `n` at cell `i`, counted from the first active cell.
    pub open spec fn cell(&self, n: int, i: int) -> T {
        self.data@[n * self.len1 + i + self.nghost]
    }
}

impl<T: Default + Copy> Block1D<T> {
    /// Allocates a block in which every element holds the default value of `T`.
    pub fn new(nvar: usize, dim1: usize, nghost: usize) -> (b: Self)
        requires
            Self::room_for(nvar as int, dim1 as int, nghost as int),
        ensures
            b.wf(),
            b.nvar == nvar,
            b.nghost == nghost,
            b.len1 == dim1 + 2 * nghost,
            b.data@.len() == nvar * (dim1 + 2 * nghost),
            b.all_default(),
    {
        let len1: usize = dim1 + 2 * nghost;
        let size: usize = nvar * len1;
        let zero = T::default();
        let mut data: Vec<T> = Vec::with_capacity(size);
        let mut k: usize = 0;
        while k < size
            invariant
                k <= size,
                data@.len() == k,
                call_ensures(T::default, (), zero),
                forall|m: int| 0 <= m < k ==> #[trigger] data@[m] == zero,
            decreases size - k,
        {
            data.push(zero);
            k += 1;
        }
        Self { nvar, len1, nghost, data }
    }

    /// Tells whether `new` can build a block of these extents.
    pub fn fits(nvar: usize, dim1: usize, nghost: usize) -> (ok: bool)
        ensures
            ok == Self::room_for(nvar as int, dim1 as int, nghost as int),
    {
        let twice: usize = match nghost.checked_mul(2) {
            Some(t) => t,
            None => {
                return false;
            },
        };
        let len1: usize = match dim1.checked_add(twice) {
            Some(l) => l,
            None => {
                return false;
            },
        };
        nvar.checked_mul(len1).is_some()
    }

    /// Tells whether the extents are consistent with each other and with the
    /// buffer.
    pub fn is_wf(&self) -> (ok: bool)
        ensures
            ok == self.wf(),
    {
        let twice: usize = match self.nghost.checked_mul(2) {
            Some(t) => t,
            None => {
                return false;
            },
        };
        if twice > self.len1 {
            return false;
        }
        let held: usize = self.data.len();
        match self.nvar.checked_mul(self.len1) {
            Some(size) => size == held,
            None => false,
        }
    }

    /// Number of elements in the buffer.
    pub fn size(&self) -> (r: usize)
        ensures
            r == self.data@.len(),
    {
        self.data.len()
    }

    /// Number of variables and of padded cells.
    pub fn shape(&self) -> (r: (usize, usize))
        ensures
            r == (self.nvar, self.len1),
    {
        (self.nvar, self.len1)
    }

    /// Offset of the row of variable `n` in the buffer.
    pub fn icomp(&self, n: usize) -> (r: usize)
        requires
            self.wf(),
            n < self.nvar,
        ensures
            r == n * self.len1,
            r + self.len1 <= self.data@.len(),
    {
        proof {
            lemma_plane_offset(self.nvar as int, self.len1 as int, n as int);
        }
        let size: usize = self.data.len();
        n * self.len1
    }

    /// The view over the active cells.
    pub fn interior(&self) -> (it: Iterator1D<'_, T>)
        requires
            self.wf(),
        ensures
            it.data == &self.data,
            it.current == self.nghost,
            it.end == self.len1 - self.nghost,
            it.remaining() == self.dim1(),
            self.data@.len() >= self.len1 ==> it.wf(),
    {
        Iterator1D { data: &self.data, current: self.nghost, end: self.len1 - self.nghost }
    }

    /// The exclusive view over the active cells.
    pub fn interior_mut(&mut self) -> (it: Iterator1DMut<'_, T>)
        requires
            old(self).wf(),
        ensures
            it.current == old(self).nghost,
            it.end == old(self).len1 - old(self).nghost,
            it.remaining() == old(self).dim1(),
            it.data@ == old(self).data@,
            old(self).data@.len() >= old(self).len1 ==> it.wf(),
            final(self).data@ == final(it.data)@,
            final(self).nvar == old(self).nvar,
            final(self).len1 == old(self).len1,
            final(self).nghost == old(self).nghost,
    {
        let current: usize = self.nghost;
        let end: usize = self.len1 - self.nghost;
        Iterator1DMut { data: &mut self.data, current, end }
    }
}

} // verus!
