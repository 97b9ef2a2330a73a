//! Storage of the reconstructed face states and of the face fluxes.
use vstd::prelude::*;
use crate::block::block2d::Block2D;
use crate::eos::eos::{holds_plane_offsets, plane_offsets};
use crate::utils::defs::{DIMENSION, NGHOST, NHYDRO};

verus! {

/// Left and right face states and face fluxes, one block of each per
/// direction.
pub struct Hydro<T> {
    /// Plane offsets of the five variables.
    pub comps: [usize; NHYDRO],
    /// Left states at the faces, per direction.
    pub wls: [Block2D<T>; DIMENSION],
    /// Right states at the faces, per direction.
    pub wrs: [Block2D<T>; DIMENSION],
    /// Fluxes through the faces, per direction.
    pub flx: [Block2D<T>; DIMENSION],
}

impl<T> Hydro<T> {
    /// Index of the blocks of the first direction.
    pub const X1DIR: usize = 0;

    /// Index of the blocks of the second direction.
    pub const X2DIR: usize = 1;

    /// Third direction (reserved; no blocks are kept for it).
    pub const X3DIR: usize = 2;

    /// `block` holds the five variables with the solver's ghost width.
    pub open spec fn block_wf(block: &Block2D<T>) -> bool {
        &&& block.wf()
        &&& block.nvar == NHYDRO
        &&& block.nghost == NGHOST
    }

    /// All six blocks hold the five variables on the same grid, and `comps`
    /// holds their plane offsets.
    pub open spec fn wf(&self) -> bool {
        &&& Self::block_wf(&self.wls[0])
        &&& Self::block_wf(&self.wls[1])
        &&& Self::block_wf(&self.wrs[0])
        &&& Self::block_wf(&self.wrs[1])
        &&& Self::block_wf(&self.flx[0])
        &&& Self::block_wf(&self.flx[1])
        &&& self.wls[1].same_shape(&self.wls[0])
        &&& self.wrs[0].same_shape(&self.wls[0])
        &&& self.wrs[1].same_shape(&self.wls[0])
        &&& self.flx[0].same_shape(&self.wls[0])
        &&& self.flx[1].same_shape(&self.wls[0])
        &&& plane_offsets(self.comps, self.wls[0].len12 as int)
    }
}

impl<T: Default + Copy> Hydro<T> {
    /// Allocates the blocks for a grid of `dim2` by `dim1` active cells.
    pub fn new(dim2: usize, dim1: usize) -> (hydro: Self)
        requires
            Block2D::<T>::room_for(NHYDRO as int, dim2 as int, dim1 as int, NGHOST as int),
        ensures
            hydro.wf(),
            hydro.wls[0].len2 == dim2 + 2 * NGHOST,
            hydro.wls[0].len1 == dim1 + 2 * NGHOST,
            forall|d: int| 0 <= d < DIMENSION ==> (#[trigger] hydro.wls[d]).all_default(),
            forall|d: int| 0 <= d < DIMENSION ==> (#[trigger] hydro.wrs[d]).all_default(),
            forall|d: int| 0 <= d < DIMENSION ==> (#[trigger] hydro.flx[d]).all_default(),
    {
        let wls = [
            Block2D::new(NHYDRO, dim2, dim1, NGHOST),
            Block2D::new(NHYDRO, dim2, dim1, NGHOST),
        ];

        let wrs = [
            Block2D::new(NHYDRO, dim2, dim1, NGHOST),
            Block2D::new(NHYDRO, dim2, dim1, NGHOST),
        ];

        let flx = [
            Block2D::new(NHYDRO, dim2, dim1, NGHOST),
            Block2D::new(NHYDRO, dim2, dim1, NGHOST),
        ];

        let mut comps: [usize; NHYDRO] = [0, 0, 0, 0, 0];
        let mut n: usize = 0;
        while n < NHYDRO
            invariant
                n <= NHYDRO,
                wls[0].wf(),
                wls[0].nvar == NHYDRO,
                forall|m: int| 0 <= m < n ==> (#[trigger] comps[m]) == m * wls[0].len12,
            decreases NHYDRO - n,
        {
            comps[n] = wls[0].icomp(n);
            n += 1;
        }

        Self { comps, wls, wrs, flx }
    }

    /// Tells whether `block` holds the five variables with the solver's ghost
    /// width.
    pub fn is_block_wf(block: &Block2D<T>) -> (ok: bool)
        ensures
            ok == Self::block_wf(block),
    {
        block.is_wf() && block.nvar == NHYDRO && block.nghost == NGHOST
    }

    /// Tells whether all six blocks hold the five variables on the same grid
    /// and `comps` holds their plane offsets.
    pub fn is_wf(&self) -> (ok: bool)
        ensures
            ok == self.wf(),
    {
        if !(Self::is_block_wf(&self.wls[0]) && Self::is_block_wf(&self.wls[1]) && Self::is_block_wf(
            &self.wrs[0],
        ) && Self::is_block_wf(&self.wrs[1]) && Self::is_block_wf(&self.flx[0]) && Self::is_block_wf(
            &self.flx[1],
        )) {
            return false;
        }
        if !(self.wls[1].is_same_shape(&self.wls[0]) && self.wrs[0].is_same_shape(&self.wls[0])
            && self.wrs[1].is_same_shape(&self.wls[0]) && self.flx[0].is_same_shape(&self.wls[0])
            && self.flx[1].is_same_shape(&self.wls[0])) {
            return false;
        }
        holds_plane_offsets(&self.comps, &self.wls[0])
    }
}

} // verus!
