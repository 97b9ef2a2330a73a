//! Equation of state.
//!
//! An `EquationOfState` keeps the primitive variables `w` and the conserved
//! variables `u` of one grid in two blocks of the same shape and converts
//! between them cell by cell over the whole padded grid, so that later
//! stencil reads near the boundary find converted ghost values. The variables
//! are, in this order: density, the three velocity components, pressure. The
//! algebra of the conversion is a function of one cell's five values that the
//! caller supplies; the sweep states which cells it is applied to and where
//! its results go.
use vstd::prelude::*;
use crate::block::block2d::Block2D;
use crate::block::block2d::{before, lemma_mixed_radix, lemma_plane_index, plane_index};
use crate::utils::common::{comps_fit, load_state, state_from, state_of, store_state};
use crate::utils::defs::{NGHOST, NHYDRO};

verus! {

/// Primitive and conserved variables of one grid.
pub struct EquationOfState<T> {
    /// Plane offsets of the five variables.
    pub comps: [usize; NHYDRO],
    /// Primitive variables.
    pub w: Block2D<T>,
    /// Conserved variables.
    pub u: Block2D<T>,
    /// First register for multi-stage time integration (not used yet).
    pub u1: Block2D<T>,
    /// Second register for multi-stage time integration (not used yet).
    pub u2: Block2D<T>,
}

/// The offsets are those of the first five planes of a block whose planes
/// hold `len12` elements.
pub open spec fn plane_offsets(comps: [usize; NHYDRO], len12: int) -> bool {
    forall|n: int| 0 <= n < NHYDRO ==> (#[trigger] comps[n]) == n * len12
}

/// The offsets of five planes of `len12 > 0` elements are the multiples
/// `0, len12, .., 4 * len12`; they differ from each other, and added to an
/// index inside the first plane they stay inside the fifth.
pub proof fn lemma_offsets_fit(comps: [usize; NHYDRO], len12: int, index: int)
    requires
        plane_offsets(comps, len12),
        0 <= index < len12,
    ensures
        comps[0] == 0,
        comps[1] == len12,
        comps[2] == 2 * len12,
        comps[3] == 3 * len12,
        comps[4] == 4 * len12,
        comps_fit(comps, 5 * len12 - index),
{
    assert(comps[0] == 0 * len12);
    assert(comps[1] == 1 * len12);
    assert(comps[2] == 2 * len12);
    assert(comps[3] == 3 * len12);
    assert(comps[4] == 4 * len12);
}

/// Tells whether `comps` holds the plane offsets of the five variables of
/// `block`.
pub fn holds_plane_offsets<T: Default + Copy>(comps: &[usize; NHYDRO], block: &Block2D<T>) -> (ok: bool)
    requires
        block.wf(),
        block.nvar == NHYDRO,
    ensures
        ok == plane_offsets(*comps, block.len12 as int),
{
    let mut n: usize = 0;
    while n < NHYDRO
        invariant
            n <= NHYDRO,
            block.wf(),
            block.nvar == NHYDRO,
            forall|m: int| 0 <= m < n ==> (#[trigger] comps[m]) == m * block.len12,
        decreases NHYDRO - n,
    {
        if comps[n] != block.icomp(n) {
            return false;
        }
        n += 1;
    }
    true
}

/// The five variables of `block` at cell `(j, i)`.
pub open spec fn state_at<T>(block: &Block2D<T>, j: int, i: int) -> (T, T, T, T, T) {
    (
        block.cell(0, j, i),
        block.cell(1, j, i),
        block.cell(2, j, i),
        block.cell(3, j, i),
        block.cell(4, j, i),
    )
}

/// `kernel` accepts the five variables that `src` holds at any cell of the
/// padded grid.
pub open spec fn convertible<T, F: Fn(T, T, T, T, T) -> (T, T, T, T, T)>(
    src: &Block2D<T>,
    kernel: F,
) -> bool {
    forall|j: int, i: int| src.in_grid(j, i) ==> call_requires(kernel, #[trigger] state_at(src, j, i))
}

/// `dst` holds, at every cell of the padded grid, a result of `kernel` on the
/// five variables that `src` holds at that cell.
pub open spec fn converted<T, F: Fn(T, T, T, T, T) -> (T, T, T, T, T)>(
    src: &Block2D<T>,
    dst: &Block2D<T>,
    kernel: F,
) -> bool {
    forall|j: int, i: int|
        src.in_grid(j, i) ==> call_ensures(kernel, state_at(src, j, i), #[trigger] state_at(dst, j, i))
}

/// Applies `kernel` to the five variables of every cell of `src`, ghost cells
/// included, and writes the five results to the same cell of `dst`.
#[verifier::rlimit(50)]
pub fn convert<T: Default + Copy, F: Fn(T, T, T, T, T) -> (T, T, T, T, T)>(
    src: &Block2D<T>,
    dst: &mut Block2D<T>,
    comps: &[usize; NHYDRO],
    kernel: &F,
)
    requires
        src.wf(),
        old(dst).wf(),
        src.nvar == NHYDRO,
        src.same_shape(old(dst)),
        plane_offsets(*comps, src.len12 as int),
        convertible(src, *kernel),
    ensures
        final(dst).wf(),
        final(dst).same_shape(old(dst)),
        converted(src, final(dst), *kernel),
{
    let ghost len1 = src.len1 as int;
    let ghost len2 = src.len2 as int;
    let ghost len12 = src.len12 as int;
    let ghost size = src.data@.len() as int;
    proof {
        assert(size == 5 * len12);
    }
    let mut from = src.all();
    let mut to = dst.all_mut();
    loop
        invariant
            0 <= len1,
            0 <= len2,
            len12 == len1 * len2,
            size == 5 * len12,
            src.len1 == len1,
            src.len2 == len2,
            src.len12 == len12,
            plane_offsets(*comps, len12),
            convertible(src, *kernel),
            src.wf(),
            from.wf(),
            from.data@ == src.data@,
            from.data@.len() == size,
            from.start1 == 0,
            from.end1 == len1,
            from.end2 == len2,
            from.len1 == len1,
            to.wf(),
            to.data@.len() == size,
            to.start1 == 0,
            to.end1 == len1,
            to.end2 == len2,
            to.len1 == len1,
            to.current1 == from.current1,
            to.current2 == from.current2,
            forall|row: int, col: int|
                0 <= row < len2 && 0 <= col < len1 && before(row, col, from.row(), from.col())
                    ==> call_ensures(
                    *kernel,
                    state_from(src.data@, plane_index(len1, row, col), *comps),
                    #[trigger] state_from(to.data@, plane_index(len1, row, col), *comps),
                ),
            after_borrow(*dst).data@ == final(to.data)@,
            after_borrow(*dst).same_shape(old(dst)),
        ensures
            from.exhausted(),
            to.data@.len() == size,
            from.start1 == 0,
            from.end1 == len1,
            from.end2 == len2,
            forall|row: int, col: int|
                0 <= row < len2 && 0 <= col < len1 && before(row, col, from.row(), from.col())
                    ==> call_ensures(
                    *kernel,
                    state_from(src.data@, plane_index(len1, row, col), *comps),
                    #[trigger] state_from(to.data@, plane_index(len1, row, col), *comps),
                ),
            after_borrow(*dst).data@ == final(to.data)@,
            after_borrow(*dst).same_shape(old(dst)),
        decreases from.remaining(),
    {
        let ghost before_data = to.data@;
        let ghost row0 = from.row();
        let ghost col0 = from.col();
        let ghost index = plane_index(len1, row0, col0);
        match (from.next(), to.next()) {
            (Some(w), Some(u)) => {
                proof {
                    lemma_plane_index(len1, len2, row0, col0);
                    lemma_offsets_fit(*comps, len12, index);
                    assert(src.in_grid(row0 - src.nghost, col0 - src.nghost));
                    assert(state_of(w@, *comps) == state_at(src, row0 - src.nghost, col0 - src.nghost));
                }
                let state = load_state(w, comps);
                let (d, m1, m2, m3, e) = kernel(state.0, state.1, state.2, state.3, state.4);
                store_state(u, comps, (d, m1, m2, m3, e));
                proof {
                    let now = before_data.subrange(0, index) + u@;
                    assert forall|row: int, col: int|
                        0 <= row < len2 && 0 <= col < len1 && before(row, col, row0, col0 + 1) implies call_ensures(
                        *kernel,
                        state_from(src.data@, plane_index(len1, row, col), *comps),
                        #[trigger] state_from(now, plane_index(len1, row, col), *comps),
                    ) by {
                        let other = plane_index(len1, row, col);
                        lemma_plane_index(len1, len2, row, col);
                        if row == row0 && col == col0 {
                            assert(state_from(now, other, *comps) == (d, m1, m2, m3, e));
                        } else {
                            if other == index {
                                lemma_mixed_radix(len1, row, col, row0, col0);
                            }
                            assert forall|n: int, m: int| 0 <= n < NHYDRO && 0 <= m < NHYDRO implies other
                                + #[trigger] comps[n] != index + #[trigger] comps[m] by {
                                assert(comps[n] == n * len12);
                                assert(comps[m] == m * len12);
                                if other + comps[n] == index + comps[m] {
                                    lemma_mixed_radix(len12, n, other, m, index);
                                }
                            }
                            assert(state_from(now, other, *comps) == state_from(
                                before_data,
                                other,
                                *comps,
                            ));
                        }
                    }
                }
            },
            _ => {
                break ;
            },
        }
    }
    proof {
        assert forall|j: int, i: int| src.in_grid(j, i) implies call_ensures(
            *kernel,
            state_at(src, j, i),
            #[trigger] state_at(dst, j, i),
        ) by {
            let row = j + src.nghost;
            let col = i + src.nghost;
            assert(plane_index(len1, row, col) == src.base(j, i));
            assert(state_from(dst.data@, plane_index(len1, row, col), *comps) == state_at(dst, j, i));
            assert(state_from(src.data@, plane_index(len1, row, col), *comps) == state_at(src, j, i));
        }
    }
}


impl<T> EquationOfState<T> {
    /// Both blocks hold the five variables on the same grid with the solver's
    /// ghost width, and `comps` holds their plane offsets.
    pub open spec fn wf(&self) -> bool {
        &&& self.w.wf()
        &&& self.u.wf()
        &&& self.w.same_shape(&self.u)
        &&& self.w.nvar == NHYDRO
        &&& self.w.nghost == NGHOST
        &&& plane_offsets(self.comps, self.w.len12 as int)
    }
}

impl<T: Default + Copy> EquationOfState<T> {
    /// Allocates the blocks for a grid of `dim2` by `dim1` active cells.
    pub fn new(dim2: usize, dim1: usize) -> (eos: Self)
        requires
            Block2D::<T>::room_for(NHYDRO as int, dim2 as int, dim1 as int, NGHOST as int),
        ensures
            eos.wf(),
            eos.w.len2 == dim2 + 2 * NGHOST,
            eos.w.len1 == dim1 + 2 * NGHOST,
            eos.w.all_default(),
            eos.u.all_default(),
            eos.u1.all_default(),
            eos.u2.all_default(),
            eos.u1.same_shape(&eos.w),
            eos.u2.same_shape(&eos.w),
    {
        let w = Block2D::new(NHYDRO, dim2, dim1, NGHOST);
        let u = Block2D::new(NHYDRO, dim2, dim1, NGHOST);

        let u1 = Block2D::new(NHYDRO, dim2, dim1, NGHOST);
        let u2 = Block2D::new(NHYDRO, dim2, dim1, NGHOST);

        let mut comps: [usize; NHYDRO] = [0, 0, 0, 0, 0];
        let mut n: usize = 0;
        while n < NHYDRO
            invariant
                n <= NHYDRO,
                w.wf(),
                w.nvar == NHYDRO,
                forall|m: int| 0 <= m < n ==> (#[trigger] comps[m]) == m * w.len12,
            decreases NHYDRO - n,
        {
            comps[n] = w.icomp(n);
            n += 1;
        }

        Self { comps, w, u, u1, u2 }
    }

    /// Tells whether both blocks hold the five variables on the same grid with
    /// the solver's ghost width and `comps` holds their plane offsets.
    pub fn is_wf(&self) -> (ok: bool)
        ensures
            ok == self.wf(),
    {
        if !(self.w.is_wf() && self.u.is_wf() && self.w.is_same_shape(&self.u) && self.w.nvar == NHYDRO
            && self.w.nghost == NGHOST) {
            return false;
        }
        holds_plane_offsets(&self.comps, &self.w)
    }

    /// Recovers the primitive variables from the conserved ones: `kernel`
    /// maps density, the three momenta and total energy of a cell to its
    /// density, three velocities and pressure.
    pub fn conserved_to_primitive<F: Fn(T, T, T, T, T) -> (T, T, T, T, T)>(&mut self, kernel: F)
        requires
            old(self).wf(),
            convertible(&old(self).u, kernel),
        ensures
            final(self).wf(),
            final(self).u == old(self).u,
            final(self).comps == old(self).comps,
            final(self).u1 == old(self).u1,
            final(self).u2 == old(self).u2,
            final(self).w.same_shape(&old(self).w),
            converted(&old(self).u, &final(self).w, kernel),
    {
        convert(&self.u, &mut self.w, &self.comps, &kernel);
    }

    /// Computes the conserved variables from the primitive ones: `kernel`
    /// maps density, the three velocities and pressure of a cell to its
    /// density, three momenta and total energy.
    pub fn primitive_to_conserved<F: Fn(T, T, T, T, T) -> (T, T, T, T, T)>(&mut self, kernel: F)
        requires
            old(self).wf(),
            convertible(&old(self).w, kernel),
        ensures
            final(self).wf(),
            final(self).w == old(self).w,
            final(self).comps == old(self).comps,
            final(self).u1 == old(self).u1,
            final(self).u2 == old(self).u2,
            final(self).u.same_shape(&old(self).u),
            converted(&old(self).w, &final(self).u, kernel),
    {
        convert(&self.w, &mut self.u, &self.comps, &kernel);
    }
}

impl<T: Default + Copy> Default for EquationOfState<T> {
    /// An equation of state over no cells at all.
    fn default() -> (eos: Self)
        ensures
            eos.w.wf(),
            eos.u.wf(),
            eos.w.same_shape(&eos.u),
            eos.w.nvar == 0,
            eos.w.len1 == 0,
            eos.w.len2 == 0,
            eos.w.nghost == 0,
            eos.w.data@.len() == 0,
            eos.u.data@.len() == 0,
            forall|n: int| 0 <= n < NHYDRO ==> (#[trigger] eos.comps[n]) == 0,
    {
        let w = Block2D::new(0, 0, 0, 0);
        let u = Block2D::new(0, 0, 0, 0);

        let u1 = Block2D::new(0, 0, 0, 0);
        let u2 = Block2D::new(0, 0, 0, 0);

        let comps: [usize; NHYDRO] = [0, 0, 0, 0, 0];
        Self { comps, w, u, u1, u2 }
    }
}

/// Round trip: if `back` undoes `forth` up to the relation `close`, then
/// converting `w` to `u` with `forth` and `u` to `w2` with `back` leaves, at
/// every cell of the padded grid, five variables that are `close` to those
/// `w` held there.
pub proof fn lemma_round_trip<
    T,
    F: Fn(T, T, T, T, T) -> (T, T, T, T, T),
    G: Fn(T, T, T, T, T) -> (T, T, T, T, T),
>(
    w: &Block2D<T>,
    u: &Block2D<T>,
    w2: &Block2D<T>,
    forth: F,
    back: G,
    close: spec_fn((T, T, T, T, T), (T, T, T, T, T)) -> bool,
)
    requires
        w.same_shape(u),
        converted(w, u, forth),
        converted(u, w2, back),
        forall|s: (T, T, T, T, T), t: (T, T, T, T, T), r: (T, T, T, T, T)|
            call_ensures(forth, s, t) && call_ensures(back, t, r) ==> close(s, r),
    ensures
        forall|j: int, i: int| w.in_grid(j, i) ==> close(state_at(w, j, i), #[trigger] state_at(w2, j, i)),
{
    assert forall|j: int, i: int| w.in_grid(j, i) implies close(
        state_at(w, j, i),
        #[trigger] state_at(w2, j, i),
    ) by {
        assert(call_ensures(forth, state_at(w, j, i), state_at(u, j, i)));
        assert(u.in_grid(j, i));
        assert(call_ensures(back, state_at(u, j, i), state_at(w2, j, i)));
    }
}

} // verus!
