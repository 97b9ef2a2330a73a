//! Reconstruction of left and right face states from cell-centred values.
//!
//! Along direction x1 the stencil and the two faces of a cell lie like this:
//!
//! ```text
//! | w_{-2} | w_{-1} |* w_{0} *| w_{1} | w_{2} |
//!                    ^       ^
//!                    |       |
//!                    wr(i)   wl(i+1)
//! ```
//!
//! The right state of the face at the low side of cell `i` and the left
//! state of the face at its high side are both computed from the stencil
//! around cell `i`, the left state with the stencil mirrored. Direction x2
//! works the same way along the rows. The interpolation itself is a function
//! of three or five neighbouring values that the caller supplies.
use vstd::prelude::*;
use crate::block::block2d::{before, lemma_mixed_radix, lemma_plane_index, plane_index, Block2D};
use crate::block::iterator2d::{Iterator2D, Iterator2DMut};
use crate::eos::eos::{lemma_offsets_fit, plane_offsets, EquationOfState};
use crate::hydro::hydro::Hydro;
use crate::utils::common::{comps_fit, set_comp};
use crate::utils::defs::{InvalidParameter, NGHOST, NHYDRO, X1DIR, X2DIR};

verus! {

/// Rows covered by `k` steps along direction `dir`.
pub open spec fn rows_along(dir: usize, k: int) -> int {
    if dir == X2DIR {
        k
    } else {
        0
    }
}

/// Columns covered by `k` steps along direction `dir`.
pub open spec fn cols_along(dir: usize, k: int) -> int {
    if dir == X1DIR {
        k
    } else {
        0
    }
}

/// The reconstruction order is one that the solver has.
pub open spec fn order_ok(order: usize) -> bool {
    order == 1 || order == 3 || order == 5
}

/// The direction is one that the solver has.
pub open spec fn dir_ok(dir: usize) -> bool {
    dir == X1DIR || dir == X2DIR
}

/// What the two faces of a cell hold for one variable after reconstruction
/// at `order`, given the cell's value `c` and its neighbours `lo2, lo1` on the
/// low side and `hi1, hi2` on the high side: `left` is the left state of the
/// high face, `right` the right state of the low face.
pub open spec fn face_states<T, F3: Fn(T, T, T) -> T, F5: Fn(T, T, T, T, T) -> T>(
    order: usize,
    weno3: F3,
    weno5: F5,
    lo2: T,
    lo1: T,
    c: T,
    hi1: T,
    hi2: T,
    left: T,
    right: T,
) -> bool {
    if order == 1 {
        left == c && right == c
    } else if order == 3 {
        call_ensures(weno3, (hi1, c, lo1), left) && call_ensures(weno3, (lo1, c, hi1), right)
    } else {
        call_ensures(weno5, (hi2, hi1, c, lo1, lo2), left) && call_ensures(
            weno5,
            (lo2, lo1, c, hi1, hi2),
            right,
        )
    }
}

/// The interpolation that `order` selects accepts the stencil `lo2 .. hi2`
/// in both directions.
pub open spec fn accepts_stencil<T, F3: Fn(T, T, T) -> T, F5: Fn(T, T, T, T, T) -> T>(
    order: usize,
    weno3: F3,
    weno5: F5,
    lo2: T,
    lo1: T,
    c: T,
    hi1: T,
    hi2: T,
) -> bool {
    if order == 3 {
        call_requires(weno3, (hi1, c, lo1)) && call_requires(weno3, (lo1, c, hi1))
    } else if order == 5 {
        call_requires(weno5, (hi2, hi1, c, lo1, lo2)) && call_requires(weno5, (lo2, lo1, c, hi1, hi2))
    } else {
        true
    }
}

/// Reconstructs the five variables of one cell: `wl` and `wr` are the
/// handles of the two faces, `wm2 .. wp2` those of the five stencil cells.
/// An order other than 1, 3 and 5 is refused and nothing is written.
pub fn reconstruct_cell<T: Copy, F3: Fn(T, T, T) -> T, F5: Fn(T, T, T, T, T) -> T>(
    wl: &mut [T],
    wr: &mut [T],
    wm2: &[T],
    wm1: &[T],
    w: &[T],
    wp1: &[T],
    wp2: &[T],
    comps: &[usize; NHYDRO],
    order: usize,
    weno3: &F3,
    weno5: &F5,
) -> (r: Result<(), InvalidParameter>)
    requires
        comps_fit(*comps, old(wl)@.len() as int),
        comps_fit(*comps, old(wr)@.len() as int),
        comps_fit(*comps, wm2@.len() as int),
        comps_fit(*comps, wm1@.len() as int),
        comps_fit(*comps, w@.len() as int),
        comps_fit(*comps, wp1@.len() as int),
        comps_fit(*comps, wp2@.len() as int),
        forall|n: int|
            0 <= n < NHYDRO ==> accepts_stencil(
                order,
                *weno3,
                *weno5,
                wm2@[comps[n] as int],
                wm1@[comps[n] as int],
                w@[#[trigger] comps[n] as int],
                wp1@[comps[n] as int],
                wp2@[comps[n] as int],
            ),
    ensures
        final(wl)@.len() == old(wl)@.len(),
        final(wr)@.len() == old(wr)@.len(),
        r is Ok <==> order_ok(order),
        r is Err ==> r == Err::<(), InvalidParameter>(InvalidParameter::Order),
        r is Err ==> final(wl)@ == old(wl)@ && final(wr)@ == old(wr)@,
        r is Ok ==> forall|n: int|
            0 <= n < NHYDRO ==> face_states(
                order,
                *weno3,
                *weno5,
                wm2@[comps[n] as int],
                wm1@[comps[n] as int],
                w@[comps[n] as int],
                wp1@[comps[n] as int],
                wp2@[comps[n] as int],
                final(wl)@[comps[n] as int],
                final(wr)@[#[trigger] comps[n] as int],
            ),
        forall|k: int|
            0 <= k < old(wl)@.len() && k != comps[0] && k != comps[1] && k != comps[2] && k
                != comps[3] && k != comps[4] ==> final(wl)@[k] == old(wl)@[k],
        forall|k: int|
            0 <= k < old(wr)@.len() && k != comps[0] && k != comps[1] && k != comps[2] && k
                != comps[3] && k != comps[4] ==> final(wr)@[k] == old(wr)@[k],
{
    if order != 1 && order != 3 && order != 5 {
        return Err(InvalidParameter::Order);
    }
    let mut n: usize = 0;
    while n < NHYDRO
        invariant
            n <= NHYDRO,
            order_ok(order),
            wl@.len() == old(wl)@.len(),
            wr@.len() == old(wr)@.len(),
            comps_fit(*comps, wl@.len() as int),
            comps_fit(*comps, wr@.len() as int),
            comps_fit(*comps, wm2@.len() as int),
            comps_fit(*comps, wm1@.len() as int),
            comps_fit(*comps, w@.len() as int),
            comps_fit(*comps, wp1@.len() as int),
            comps_fit(*comps, wp2@.len() as int),
            forall|n: int|
                0 <= n < NHYDRO ==> accepts_stencil(
                    order,
                    *weno3,
                    *weno5,
                    wm2@[comps[n] as int],
                    wm1@[comps[n] as int],
                    w@[#[trigger] comps[n] as int],
                    wp1@[comps[n] as int],
                    wp2@[comps[n] as int],
                ),
            forall|m: int|
                0 <= m < n ==> face_states(
                    order,
                    *weno3,
                    *weno5,
                    wm2@[comps[m] as int],
                    wm1@[comps[m] as int],
                    w@[comps[m] as int],
                    wp1@[comps[m] as int],
                    wp2@[comps[m] as int],
                    wl@[comps[m] as int],
                    wr@[#[trigger] comps[m] as int],
                ),
            forall|k: int|
                0 <= k < wl@.len() && (forall|m: int| 0 <= m < n ==> k != #[trigger] comps[m])
                    ==> wl@[k] == old(wl)@[k],
            forall|k: int|
                0 <= k < wr@.len() && (forall|m: int| 0 <= m < n ==> k != #[trigger] comps[m])
                    ==> wr@[k] == old(wr)@[k],
        decreases NHYDRO - n,
    {
        let at: usize = comps[n];
        let (left, right) = if order == 1 {
            (w[at], w[at])
        } else if order == 3 {
            (weno3(wp1[at], w[at], wm1[at]), weno3(wm1[at], w[at], wp1[at]))
        } else {
            (
                weno5(wp2[at], wp1[at], w[at], wm1[at], wm2[at]),
                weno5(wm2[at], wm1[at], w[at], wp1[at], wp2[at]),
            )
        };
        set_comp(wl, at, left);
        set_comp(wr, at, right);
        n += 1;
    }
    Ok(())
}

/// Buffer index of variable `n` at padded row `row` and padded column `col`.
pub open spec fn flat(len12: int, len1: int, n: int, row: int, col: int) -> int {
    n * len12 + plane_index(len1, row, col)
}

/// Different cells of the grid have different buffer indices, whatever the
/// variable.
pub proof fn lemma_flat_distinct(
    len12: int,
    len1: int,
    len2: int,
    n: int,
    row: int,
    col: int,
    m: int,
    r: int,
    c: int,
)
    requires
        len12 == len1 * len2,
        0 <= row < len2,
        0 <= col < len1,
        0 <= r < len2,
        0 <= c < len1,
        row != r || col != c,
    ensures
        flat(len12, len1, n, row, col) != flat(len12, len1, m, r, c),
{
    lemma_plane_index(len1, len2, row, col);
    lemma_plane_index(len1, len2, r, c);
    if flat(len12, len1, n, row, col) == flat(len12, len1, m, r, c) {
        lemma_mixed_radix(len12, n, plane_index(len1, row, col), m, plane_index(len1, r, c));
        lemma_mixed_radix(len1, row, col, r, c);
    }
}

/// Writing a cell through its handle changes the buffer at the five
/// variables of that cell and nowhere else.
pub proof fn lemma_cell_written<T>(
    old_data: Seq<T>,
    new_data: Seq<T>,
    old_cell: Seq<T>,
    new_cell: Seq<T>,
    index: int,
    comps: [usize; NHYDRO],
)
    requires
        0 <= index < old_data.len(),
        old_cell == old_data.subrange(index, old_data.len() as int),
        new_data == old_data.subrange(0, index) + new_cell,
        new_cell.len() == old_cell.len(),
        comps_fit(comps, old_cell.len() as int),
        forall|k: int|
            0 <= k < old_cell.len() && k != comps[0] && k != comps[1] && k != comps[2] && k
                != comps[3] && k != comps[4] ==> new_cell[k] == old_cell[k],
    ensures
        new_data.len() == old_data.len(),
        forall|n: int| 0 <= n < NHYDRO ==> new_data[index + #[trigger] comps[n]] == new_cell[comps[n] as int],
        forall|p: int|
            0 <= p < old_data.len() && p != index + comps[0] && p != index + comps[1] && p != index
                + comps[2] && p != index + comps[3] && p != index + comps[4] ==> new_data[p]
                == old_data[p],
{
    assert forall|p: int|
        0 <= p < old_data.len() && p != index + comps[0] && p != index + comps[1] && p != index
            + comps[2] && p != index + comps[3] && p != index + comps[4] implies new_data[p]
        == old_data[p] by {
        if p >= index {
            assert(new_data[p] == new_cell[p - index]);
            assert(old_cell[p - index] == old_data[p]);
        }
    }
}

/// The read-only view over the active cells, widened by one cell on each
/// side along `dir` and then moved by `offset` cells along `dir`.
pub fn window_along<T: Default + Copy>(block: &Block2D<T>, dir: usize, offset: i32) -> (it:
    Iterator2D<'_, T>)
    requires
        block.wf(),
        dir_ok(dir),
        1 <= block.nghost + offset,
        offset + 1 <= block.nghost,
    ensures
        it == block.window(
            block.nghost + rows_along(dir, offset - 1),
            block.len2 - block.nghost + rows_along(dir, offset + 1),
            block.nghost + cols_along(dir, offset - 1),
            block.len1 - block.nghost + cols_along(dir, offset + 1),
        ),
        block.data@.len() >= block.len12 ==> it.wf(),
{
    if dir == X1DIR {
        block.interior_x1(offset)
    } else {
        block.interior_x2(offset)
    }
}

/// The exclusive view over the active cells, widened by one cell on each
/// side along `dir` and then moved by `offset` cells along `dir`.
pub fn window_along_mut<T: Default + Copy>(block: &mut Block2D<T>, dir: usize, offset: i32) -> (it:
    Iterator2DMut<'_, T>)
    requires
        old(block).wf(),
        dir_ok(dir),
        1 <= old(block).nghost + offset,
        offset + 1 <= old(block).nghost,
    ensures
        it.at_window(
            old(block).len1 as int,
            old(block).nghost + rows_along(dir, offset - 1),
            old(block).len2 - old(block).nghost + rows_along(dir, offset + 1),
            old(block).nghost + cols_along(dir, offset - 1),
            old(block).len1 - old(block).nghost + cols_along(dir, offset + 1),
        ),
        it.data@ == old(block).data@,
        old(block).data@.len() >= old(block).len12 ==> it.wf(),
        final(block).data@ == final(it.data)@,
        final(block).same_shape(old(block)),
{
    if dir == X1DIR {
        block.interior_x1_mut(offset)
    } else {
        block.interior_x2_mut(offset)
    }
}


/// View `x` walks the window of view `c` moved by `k` cells along `dir`, and
/// stands at the cell that corresponds to the one `c` stands at.
pub open spec fn aligned<T>(x: &Iterator2D<'_, T>, c: &Iterator2D<'_, T>, dir: usize, k: int) -> bool {
    &&& x.len1 == c.len1
    &&& x.current1 == c.current1 + cols_along(dir, k)
    &&& x.current2 == c.current2 + rows_along(dir, k)
    &&& x.start1 == c.start1 + cols_along(dir, k)
    &&& x.end1 == c.end1 + cols_along(dir, k)
    &&& x.end2 == c.end2 + rows_along(dir, k)
}

/// The exclusive view `x` walks the window of view `c` moved by `k` cells
/// along `dir`, and stands at the cell that corresponds to the one `c` stands
/// at.
pub open spec fn aligned_mut<T>(x: &Iterator2DMut<'_, T>, c: &Iterator2D<'_, T>, dir: usize, k: int) -> bool {
    &&& x.len1 == c.len1
    &&& x.current1 == c.current1 + cols_along(dir, k)
    &&& x.current2 == c.current2 + rows_along(dir, k)
    &&& x.start1 == c.start1 + cols_along(dir, k)
    &&& x.end1 == c.end1 + cols_along(dir, k)
    &&& x.end2 == c.end2 + rows_along(dir, k)
}

/// The sweep along `dir` reconstructs around cell `(j, i)`: the active cells
/// and one more cell on each side along `dir`.
pub open spec fn in_sweep<T>(w: &Block2D<T>, dir: usize, j: int, i: int) -> bool {
    &&& -rows_along(dir, 1) <= j < w.dim2() + rows_along(dir, 1)
    &&& -cols_along(dir, 1) <= i < w.dim1() + cols_along(dir, 1)
}

/// For every variable and every cell `(j, i)` of the sweep, the right state
/// at `(j, i)` in `wr` and the left state one cell further along `dir` in
/// `wl` are the face states of the stencil that `w` holds around `(j, i)`.
pub open spec fn reconstructed<T, F3: Fn(T, T, T) -> T, F5: Fn(T, T, T, T, T) -> T>(
    w: &Block2D<T>,
    wl: &Block2D<T>,
    wr: &Block2D<T>,
    dir: usize,
    order: usize,
    weno3: F3,
    weno5: F5,
) -> bool {
    forall|n: int, j: int, i: int|
        0 <= n < NHYDRO && in_sweep(w, dir, j, i) ==> face_states(
            order,
            weno3,
            weno5,
            w.cell(n, j + rows_along(dir, -2), i + cols_along(dir, -2)),
            w.cell(n, j + rows_along(dir, -1), i + cols_along(dir, -1)),
            w.cell(n, j, i),
            w.cell(n, j + rows_along(dir, 1), i + cols_along(dir, 1)),
            w.cell(n, j + rows_along(dir, 2), i + cols_along(dir, 2)),
            wl.cell(n, j + rows_along(dir, 1), i + cols_along(dir, 1)),
            #[trigger] wr.cell(n, j, i),
        )
}

/// The interpolation that `order` selects accepts every stencil of the sweep
/// along `dir` over `w`, in both directions.
pub open spec fn reconstructible<T, F3: Fn(T, T, T) -> T, F5: Fn(T, T, T, T, T) -> T>(
    w: &Block2D<T>,
    dir: usize,
    order: usize,
    weno3: F3,
    weno5: F5,
) -> bool {
    forall|n: int, j: int, i: int|
        0 <= n < NHYDRO && in_sweep(w, dir, j, i) ==> accepts_stencil(
            order,
            weno3,
            weno5,
            w.cell(n, j + rows_along(dir, -2), i + cols_along(dir, -2)),
            w.cell(n, j + rows_along(dir, -1), i + cols_along(dir, -1)),
            #[trigger] w.cell(n, j, i),
            w.cell(n, j + rows_along(dir, 1), i + cols_along(dir, 1)),
            w.cell(n, j + rows_along(dir, 2), i + cols_along(dir, 2)),
        )
}

/// `later` holds what `earlier` held at every cell that is not `shift` cells
/// along `dir` from a cell of the sweep.
pub open spec fn kept_outside_sweep<T>(
    earlier: &Block2D<T>,
    later: &Block2D<T>,
    dir: usize,
    shift: int,
) -> bool {
    forall|n: int, j: int, i: int|
        earlier.in_range(n, j, i) && !in_sweep(
            earlier,
            dir,
            j - rows_along(dir, shift),
            i - cols_along(dir, shift),
        ) ==> #[trigger] later.cell(n, j, i) == earlier.cell(n, j, i)
}

/// Order 1 copies: after a reconstruction at order 1, the left state and the
/// right state that belong to a cell of the sweep both equal the
/// cell-centred value, for every variable and in both directions.
pub proof fn lemma_order_one_copies<T, F3: Fn(T, T, T) -> T, F5: Fn(T, T, T, T, T) -> T>(
    w: &Block2D<T>,
    wl: &Block2D<T>,
    wr: &Block2D<T>,
    dir: usize,
    weno3: F3,
    weno5: F5,
)
    requires
        reconstructed(w, wl, wr, dir, 1, weno3, weno5),
    ensures
        forall|n: int, j: int, i: int|
            0 <= n < NHYDRO && in_sweep(w, dir, j, i) ==> #[trigger] wr.cell(n, j, i) == w.cell(n, j, i)
                && wl.cell(n, j + rows_along(dir, 1), i + cols_along(dir, 1)) == wr.cell(n, j, i),
{
    assert forall|n: int, j: int, i: int| 0 <= n < NHYDRO && in_sweep(w, dir, j, i) implies #[trigger] wr.cell(
        n,
        j,
        i,
    ) == w.cell(n, j, i) && wl.cell(n, j + rows_along(dir, 1), i + cols_along(dir, 1)) == wr.cell(
        n,
        j,
        i,
    ) by {
        assert(face_states(
            1,
            weno3,
            weno5,
            w.cell(n, j + rows_along(dir, -2), i + cols_along(dir, -2)),
            w.cell(n, j + rows_along(dir, -1), i + cols_along(dir, -1)),
            w.cell(n, j, i),
            w.cell(n, j + rows_along(dir, 1), i + cols_along(dir, 1)),
            w.cell(n, j + rows_along(dir, 2), i + cols_along(dir, 2)),
            wl.cell(n, j + rows_along(dir, 1), i + cols_along(dir, 1)),
            wr.cell(n, j, i),
        ));
    }
}

/// The right state at face `(j, i)` is `weno5` of the five cells
/// `i - 2 .. i + 2` of row `j`, and the left state at face `(j, i + 1)` is
/// `weno5` of the same cells in reverse.
pub open spec fn weno5_faces_x1<T, F5: Fn(T, T, T, T, T) -> T>(
    w: &Block2D<T>,
    wl: &Block2D<T>,
    wr: &Block2D<T>,
    weno5: F5,
    n: int,
    j: int,
    i: int,
) -> bool {
    &&& call_ensures(
        weno5,
        (w.cell(n, j, i - 2), w.cell(n, j, i - 1), w.cell(n, j, i), w.cell(n, j, i + 1), w.cell(n, j, i + 2)),
        wr.cell(n, j, i),
    )
    &&& call_ensures(
        weno5,
        (w.cell(n, j, i + 2), w.cell(n, j, i + 1), w.cell(n, j, i), w.cell(n, j, i - 1), w.cell(n, j, i - 2)),
        wl.cell(n, j, i + 1),
    )
}

/// The right state at face `(j, i)` is `weno5` of the five cells
/// `j - 2 .. j + 2` of column `i`, and the left state at face `(j + 1, i)`
/// is `weno5` of the same cells in reverse.
pub open spec fn weno5_faces_x2<T, F5: Fn(T, T, T, T, T) -> T>(
    w: &Block2D<T>,
    wl: &Block2D<T>,
    wr: &Block2D<T>,
    weno5: F5,
    n: int,
    j: int,
    i: int,
) -> bool {
    &&& call_ensures(
        weno5,
        (w.cell(n, j - 2, i), w.cell(n, j - 1, i), w.cell(n, j, i), w.cell(n, j + 1, i), w.cell(n, j + 2, i)),
        wr.cell(n, j, i),
    )
    &&& call_ensures(
        weno5,
        (w.cell(n, j + 2, i), w.cell(n, j + 1, i), w.cell(n, j, i), w.cell(n, j - 1, i), w.cell(n, j - 2, i)),
        wl.cell(n, j + 1, i),
    )
}

/// Order 5 along x1: after a reconstruction at order 5, the face states are
/// `weno5` of the explicit five-cell stencils, for every variable, every
/// active row and every column from one before the first active cell to one
/// after the last, ghost cells being read near the boundary.
pub proof fn lemma_order_five_x1<T, F3: Fn(T, T, T) -> T, F5: Fn(T, T, T, T, T) -> T>(
    w: &Block2D<T>,
    wl: &Block2D<T>,
    wr: &Block2D<T>,
    weno3: F3,
    weno5: F5,
)
    requires
        reconstructed(w, wl, wr, X1DIR, 5, weno3, weno5),
    ensures
        forall|n: int, j: int, i: int|
            0 <= n < NHYDRO && 0 <= j < w.dim2() && -1 <= i <= w.dim1() ==> #[trigger] weno5_faces_x1(
                w,
                wl,
                wr,
                weno5,
                n,
                j,
                i,
            ),
{
    assert forall|n: int, j: int, i: int|
        0 <= n < NHYDRO && 0 <= j < w.dim2() && -1 <= i <= w.dim1() implies #[trigger] weno5_faces_x1(
        w,
        wl,
        wr,
        weno5,
        n,
        j,
        i,
    ) by {
        assert(in_sweep(w, X1DIR, j, i));
        assert(face_states(
            5,
            weno3,
            weno5,
            w.cell(n, j, i - 2),
            w.cell(n, j, i - 1),
            w.cell(n, j, i),
            w.cell(n, j, i + 1),
            w.cell(n, j, i + 2),
            wl.cell(n, j, i + 1),
            wr.cell(n, j, i),
        ));
    }
}

/// Order 5 along x2: after a reconstruction at order 5, the face states are
/// `weno5` of the explicit five-cell stencils, for every variable, every
/// active column and every row from one before the first active cell to one
/// after the last, ghost cells being read near the boundary.
pub proof fn lemma_order_five_x2<T, F3: Fn(T, T, T) -> T, F5: Fn(T, T, T, T, T) -> T>(
    w: &Block2D<T>,
    wl: &Block2D<T>,
    wr: &Block2D<T>,
    weno3: F3,
    weno5: F5,
)
    requires
        reconstructed(w, wl, wr, X2DIR, 5, weno3, weno5),
    ensures
        forall|n: int, j: int, i: int|
            0 <= n < NHYDRO && -1 <= j <= w.dim2() && 0 <= i < w.dim1() ==> #[trigger] weno5_faces_x2(
                w,
                wl,
                wr,
                weno5,
                n,
                j,
                i,
            ),
{
    assert forall|n: int, j: int, i: int|
        0 <= n < NHYDRO && -1 <= j <= w.dim2() && 0 <= i < w.dim1() implies #[trigger] weno5_faces_x2(
        w,
        wl,
        wr,
        weno5,
        n,
        j,
        i,
    ) by {
        assert(in_sweep(w, X2DIR, j, i));
        assert(face_states(
            5,
            weno3,
            weno5,
            w.cell(n, j - 2, i),
            w.cell(n, j - 1, i),
            w.cell(n, j, i),
            w.cell(n, j + 1, i),
            w.cell(n, j + 2, i),
            wl.cell(n, j + 1, i),
            wr.cell(n, j, i),
        ));
    }
}

/// Padded cell `(row, col)` belongs to the window of the sweep along `dir`
/// over a grid of `len2` by `len1` padded cells.
pub open spec fn in_window(dir: usize, len1: int, len2: int, row: int, col: int) -> bool {
    &&& NGHOST - rows_along(dir, 1) <= row < len2 - NGHOST + rows_along(dir, 1)
    &&& NGHOST - cols_along(dir, 1) <= col < len1 - NGHOST + cols_along(dir, 1)
}

/// The cells of the window that come before `(r, c)` are reconstructed: `l`
/// and `r` are the buffers of the left and right states, `w` the buffer of
/// the cell-centred values.
#[verifier::opaque]
pub open spec fn faces_done<T, F3: Fn(T, T, T) -> T, F5: Fn(T, T, T, T, T) -> T>(
    order: usize,
    weno3: F3,
    weno5: F5,
    dir: usize,
    len12: int,
    len1: int,
    len2: int,
    w: Seq<T>,
    left: Seq<T>,
    right: Seq<T>,
    r: int,
    c: int,
) -> bool {
    forall|n: int, row: int, col: int|
        0 <= n < NHYDRO && in_window(dir, len1, len2, row, col) && before(row, col, r, c)
            ==> face_states(
            order,
            weno3,
            weno5,
            w[flat(len12, len1, n, row + rows_along(dir, -2), col + cols_along(dir, -2))],
            w[flat(len12, len1, n, row + rows_along(dir, -1), col + cols_along(dir, -1))],
            w[flat(len12, len1, n, row, col)],
            w[flat(len12, len1, n, row + rows_along(dir, 1), col + cols_along(dir, 1))],
            w[flat(len12, len1, n, row + rows_along(dir, 2), col + cols_along(dir, 2))],
            left[flat(len12, len1, n, row + rows_along(dir, 1), col + cols_along(dir, 1))],
            right[#[trigger] flat(len12, len1, n, row, col)],
        )
}

/// `data` holds what `data0` held at every cell that is not `shift` cells
/// along `dir` from a cell of the window that comes before `(r, c)`.
#[verifier::opaque]
pub open spec fn kept<T>(
    dir: usize,
    len12: int,
    len1: int,
    len2: int,
    shift: int,
    data: Seq<T>,
    data0: Seq<T>,
    r: int,
    c: int,
) -> bool {
    forall|n: int, row: int, col: int|
        0 <= n < NHYDRO && 0 <= row < len2 && 0 <= col < len1 && !(in_window(
            dir,
            len1,
            len2,
            row - rows_along(dir, shift),
            col - cols_along(dir, shift),
        ) && before(row - rows_along(dir, shift), col - cols_along(dir, shift), r, c))
            ==> data[#[trigger] flat(len12, len1, n, row, col)] == data0[flat(len12, len1, n, row, col)]
}

/// A buffer that changed only at the five variables of the cell in padded row
/// `r` and padded column `c` holds its old values at every other cell.
#[verifier::rlimit(50)]
pub proof fn lemma_other_cells_kept<T>(
    len12: int,
    len1: int,
    len2: int,
    comps: [usize; NHYDRO],
    earlier: Seq<T>,
    later: Seq<T>,
    r: int,
    c: int,
)
    requires
        len12 == len1 * len2,
        0 <= r < len2,
        0 <= c < len1,
        earlier.len() == 5 * len12,
        plane_offsets(comps, len12),
        forall|p: int|
            0 <= p < earlier.len() && p != plane_index(len1, r, c) + comps[0] && p != plane_index(
                len1,
                r,
                c,
            ) + comps[1] && p != plane_index(len1, r, c) + comps[2] && p != plane_index(len1, r, c)
                + comps[3] && p != plane_index(len1, r, c) + comps[4] ==> later[p] == earlier[p],
    ensures
        forall|n: int, row: int, col: int|
            0 <= n < NHYDRO && 0 <= row < len2 && 0 <= col < len1 && (row != r || col != c)
                ==> later[#[trigger] flat(len12, len1, n, row, col)] == earlier[flat(
                len12,
                len1,
                n,
                row,
                col,
            )],
{
    lemma_plane_index(len1, len2, r, c);
    lemma_offsets_fit(comps, len12, plane_index(len1, r, c));
    assert forall|n: int, row: int, col: int|
        0 <= n < NHYDRO && 0 <= row < len2 && 0 <= col < len1 && (row != r || col != c) implies later[#[trigger] flat(
        len12,
        len1,
        n,
        row,
        col,
    )] == earlier[flat(len12, len1, n, row, col)] by {
        lemma_plane_index(len1, len2, row, col);
        crate::block::block2d::lemma_plane_offset(5, len12, n);
        lemma_flat_distinct(len12, len1, len2, n, row, col, 0, r, c);
        lemma_flat_distinct(len12, len1, len2, n, row, col, 1, r, c);
        lemma_flat_distinct(len12, len1, len2, n, row, col, 2, r, c);
        lemma_flat_distinct(len12, len1, len2, n, row, col, 3, r, c);
        lemma_flat_distinct(len12, len1, len2, n, row, col, 4, r, c);
    }
}


/// One step of the sweep: with the cells before the cursor `(cur2, cur1)`
/// reconstructed, reconstructing the cell `(row0, col0)` at which the cursor
/// stands leaves the cells before `(row0, col0 + 1)` reconstructed.
#[verifier::rlimit(50)]
pub proof fn lemma_sweep_step<T, F3: Fn(T, T, T) -> T, F5: Fn(T, T, T, T, T) -> T>(
    order: usize,
    weno3: F3,
    weno5: F5,
    dir: usize,
    len12: int,
    len1: int,
    len2: int,
    w: Seq<T>,
    l0: Seq<T>,
    r0: Seq<T>,
    l_old: Seq<T>,
    l_new: Seq<T>,
    r_old: Seq<T>,
    r_new: Seq<T>,
    cur2: int,
    cur1: int,
    row0: int,
    col0: int,
)
    requires
        dir_ok(dir),
        2 * NGHOST <= len1,
        2 * NGHOST <= len2,
        NGHOST - cols_along(dir, 1) <= cur1 <= len1 - NGHOST + cols_along(dir, 1),
        row0 == (if cur1 >= len1 - NGHOST + cols_along(dir, 1) {
            cur2 + 1
        } else {
            cur2
        }),
        col0 == (if cur1 >= len1 - NGHOST + cols_along(dir, 1) {
            NGHOST - cols_along(dir, 1)
        } else {
            cur1
        }),
        in_window(dir, len1, len2, row0, col0),
        faces_done(order, weno3, weno5, dir, len12, len1, len2, w, l_old, r_old, cur2, cur1),
        kept(dir, len12, len1, len2, 1, l_old, l0, cur2, cur1),
        kept(dir, len12, len1, len2, 0, r_old, r0, cur2, cur1),
        forall|n: int, row: int, col: int|
            0 <= n < NHYDRO && 0 <= row < len2 && 0 <= col < len1 && (row != row0 + rows_along(dir, 1)
                || col != col0 + cols_along(dir, 1)) ==> l_new[#[trigger] flat(len12, len1, n, row, col)]
                == l_old[flat(len12, len1, n, row, col)],
        forall|n: int, row: int, col: int|
            0 <= n < NHYDRO && 0 <= row < len2 && 0 <= col < len1 && (row != row0 || col != col0)
                ==> r_new[#[trigger] flat(len12, len1, n, row, col)] == r_old[flat(
                len12,
                len1,
                n,
                row,
                col,
            )],
        forall|n: int|
            0 <= n < NHYDRO ==> face_states(
                order,
                weno3,
                weno5,
                w[flat(len12, len1, n, row0 + rows_along(dir, -2), col0 + cols_along(dir, -2))],
                w[flat(len12, len1, n, row0 + rows_along(dir, -1), col0 + cols_along(dir, -1))],
                w[flat(len12, len1, n, row0, col0)],
                w[flat(len12, len1, n, row0 + rows_along(dir, 1), col0 + cols_along(dir, 1))],
                w[flat(len12, len1, n, row0 + rows_along(dir, 2), col0 + cols_along(dir, 2))],
                l_new[flat(len12, len1, n, row0 + rows_along(dir, 1), col0 + cols_along(dir, 1))],
                r_new[#[trigger] flat(len12, len1, n, row0, col0)],
            ),
    ensures
        faces_done(order, weno3, weno5, dir, len12, len1, len2, w, l_new, r_new, row0, col0 + 1),
        kept(dir, len12, len1, len2, 1, l_new, l0, row0, col0 + 1),
        kept(dir, len12, len1, len2, 0, r_new, r0, row0, col0 + 1),
{
    reveal(faces_done);
    reveal(kept);
    assert forall|n: int, row: int, col: int|
        0 <= n < NHYDRO && in_window(dir, len1, len2, row, col) && before(
            row,
            col,
            row0,
            col0 + 1,
        ) implies face_states(
        order,
        weno3,
        weno5,
        w[flat(len12, len1, n, row + rows_along(dir, -2), col + cols_along(dir, -2))],
        w[flat(len12, len1, n, row + rows_along(dir, -1), col + cols_along(dir, -1))],
        w[flat(len12, len1, n, row, col)],
        w[flat(len12, len1, n, row + rows_along(dir, 1), col + cols_along(dir, 1))],
        w[flat(len12, len1, n, row + rows_along(dir, 2), col + cols_along(dir, 2))],
        l_new[flat(len12, len1, n, row + rows_along(dir, 1), col + cols_along(dir, 1))],
        r_new[#[trigger] flat(len12, len1, n, row, col)],
    ) by {
        if row != row0 || col != col0 {
            assert(before(row, col, cur2, cur1));
            assert(l_new[flat(len12, len1, n, row + rows_along(dir, 1), col + cols_along(dir, 1))]
                == l_old[flat(len12, len1, n, row + rows_along(dir, 1), col + cols_along(dir, 1))]);
            assert(r_new[flat(len12, len1, n, row, col)] == r_old[flat(len12, len1, n, row, col)]);
        }
    }
    assert forall|n: int, row: int, col: int|
        0 <= n < NHYDRO && 0 <= row < len2 && 0 <= col < len1 && !(in_window(
            dir,
            len1,
            len2,
            row - rows_along(dir, 1),
            col - cols_along(dir, 1),
        ) && before(row - rows_along(dir, 1), col - cols_along(dir, 1), row0, col0 + 1)) implies l_new[#[trigger] flat(
        len12,
        len1,
        n,
        row,
        col,
    )] == l0[flat(len12, len1, n, row, col)] by {
        assert(l_new[flat(len12, len1, n, row, col)] == l_old[flat(len12, len1, n, row, col)]);
    }
    assert forall|n: int, row: int, col: int|
        0 <= n < NHYDRO && 0 <= row < len2 && 0 <= col < len1 && !(in_window(dir, len1, len2, row, col)
            && before(row, col, row0, col0 + 1)) implies r_new[#[trigger] flat(len12, len1, n, row, col)]
        == r0[flat(len12, len1, n, row, col)] by {
        assert(r_new[flat(len12, len1, n, row, col)] == r_old[flat(len12, len1, n, row, col)]);
    }
}


/// Before the first step no cell is reconstructed and both buffers hold what
/// they held.
pub proof fn lemma_sweep_start<T, F3: Fn(T, T, T) -> T, F5: Fn(T, T, T, T, T) -> T>(
    order: usize,
    weno3: F3,
    weno5: F5,
    dir: usize,
    len12: int,
    len1: int,
    len2: int,
    w: Seq<T>,
    l0: Seq<T>,
    r0: Seq<T>,
)
    ensures
        faces_done(
            order,
            weno3,
            weno5,
            dir,
            len12,
            len1,
            len2,
            w,
            l0,
            r0,
            NGHOST - rows_along(dir, 1),
            NGHOST - cols_along(dir, 1),
        ),
        kept(dir, len12, len1, len2, 1, l0, l0, NGHOST - rows_along(dir, 1), NGHOST - cols_along(dir, 1)),
        kept(dir, len12, len1, len2, 0, r0, r0, NGHOST - rows_along(dir, 1), NGHOST - cols_along(dir, 1)),
{
    reveal(faces_done);
    reveal(kept);
}

/// The handle of the cell in padded row `row` and padded column `col` holds
/// variable `n` of that cell at offset `comps[n]`.
pub proof fn lemma_cell_reads<T>(
    len12: int,
    len1: int,
    len2: int,
    comps: [usize; NHYDRO],
    data: Seq<T>,
    cell: Seq<T>,
    row: int,
    col: int,
)
    requires
        len12 == len1 * len2,
        0 <= row < len2,
        0 <= col < len1,
        data.len() == 5 * len12,
        plane_offsets(comps, len12),
        cell == data.subrange(plane_index(len1, row, col), data.len() as int),
    ensures
        comps_fit(comps, cell.len() as int),
        forall|n: int|
            0 <= n < NHYDRO ==> cell[#[trigger] comps[n] as int] == data[flat(len12, len1, n, row, col)],
        forall|n: int|
            0 <= n < NHYDRO ==> plane_index(len1, row, col) + #[trigger] comps[n] == flat(
                len12,
                len1,
                n,
                row,
                col,
            ),
{
    lemma_plane_index(len1, len2, row, col);
    lemma_offsets_fit(comps, len12, plane_index(len1, row, col));
}

/// The stencil around padded cell `(row, col)` of the window, read through
/// the five handles, is one that the interpolation accepts.
#[verifier::rlimit(50)]
pub proof fn lemma_cell_accepted<T, F3: Fn(T, T, T) -> T, F5: Fn(T, T, T, T, T) -> T>(
    order: usize,
    weno3: F3,
    weno5: F5,
    dir: usize,
    w: Block2D<T>,
    comps: [usize; NHYDRO],
    lo2: Seq<T>,
    lo1: Seq<T>,
    c: Seq<T>,
    hi1: Seq<T>,
    hi2: Seq<T>,
    row: int,
    col: int,
)
    requires
        dir_ok(dir),
        Hydro::<T>::block_wf(&w),
        plane_offsets(comps, w.len12 as int),
        reconstructible(&w, dir, order, weno3, weno5),
        in_window(dir, w.len1 as int, w.len2 as int, row, col),
        forall|n: int|
            0 <= n < NHYDRO ==> lo2[#[trigger] comps[n] as int] == w.data@[flat(
                w.len12 as int,
                w.len1 as int,
                n,
                row + rows_along(dir, -2),
                col + cols_along(dir, -2),
            )],
        forall|n: int|
            0 <= n < NHYDRO ==> lo1[#[trigger] comps[n] as int] == w.data@[flat(
                w.len12 as int,
                w.len1 as int,
                n,
                row + rows_along(dir, -1),
                col + cols_along(dir, -1),
            )],
        forall|n: int|
            0 <= n < NHYDRO ==> c[#[trigger] comps[n] as int] == w.data@[flat(
                w.len12 as int,
                w.len1 as int,
                n,
                row,
                col,
            )],
        forall|n: int|
            0 <= n < NHYDRO ==> hi1[#[trigger] comps[n] as int] == w.data@[flat(
                w.len12 as int,
                w.len1 as int,
                n,
                row + rows_along(dir, 1),
                col + cols_along(dir, 1),
            )],
        forall|n: int|
            0 <= n < NHYDRO ==> hi2[#[trigger] comps[n] as int] == w.data@[flat(
                w.len12 as int,
                w.len1 as int,
                n,
                row + rows_along(dir, 2),
                col + cols_along(dir, 2),
            )],
    ensures
        forall|n: int|
            0 <= n < NHYDRO ==> accepts_stencil(
                order,
                weno3,
                weno5,
                lo2[comps[n] as int],
                lo1[comps[n] as int],
                c[#[trigger] comps[n] as int],
                hi1[comps[n] as int],
                hi2[comps[n] as int],
            ),
{
    let len12 = w.len12 as int;
    let len1 = w.len1 as int;
    assert forall|n: int| 0 <= n < NHYDRO implies accepts_stencil(
        order,
        weno3,
        weno5,
        lo2[comps[n] as int],
        lo1[comps[n] as int],
        c[#[trigger] comps[n] as int],
        hi1[comps[n] as int],
        hi2[comps[n] as int],
    ) by {
        let j = row - NGHOST;
        let i = col - NGHOST;
        assert(in_sweep(&w, dir, j, i));
        assert(w.cell(n, j, i) == w.data@[flat(len12, len1, n, row, col)]);
        assert(w.cell(n, j + rows_along(dir, -2), i + cols_along(dir, -2)) == w.data@[flat(
            len12,
            len1,
            n,
            row + rows_along(dir, -2),
            col + cols_along(dir, -2),
        )]);
        assert(w.cell(n, j + rows_along(dir, -1), i + cols_along(dir, -1)) == w.data@[flat(
            len12,
            len1,
            n,
            row + rows_along(dir, -1),
            col + cols_along(dir, -1),
        )]);
        assert(w.cell(n, j + rows_along(dir, 1), i + cols_along(dir, 1)) == w.data@[flat(
            len12,
            len1,
            n,
            row + rows_along(dir, 1),
            col + cols_along(dir, 1),
        )]);
        assert(w.cell(n, j + rows_along(dir, 2), i + cols_along(dir, 2)) == w.data@[flat(
            len12,
            len1,
            n,
            row + rows_along(dir, 2),
            col + cols_along(dir, 2),
        )]);
        assert(accepts_stencil(
            order,
            weno3,
            weno5,
            w.cell(n, j + rows_along(dir, -2), i + cols_along(dir, -2)),
            w.cell(n, j + rows_along(dir, -1), i + cols_along(dir, -1)),
            w.cell(n, j, i),
            w.cell(n, j + rows_along(dir, 1), i + cols_along(dir, 1)),
            w.cell(n, j + rows_along(dir, 2), i + cols_along(dir, 2)),
        ));
    }
}

/// Once the cursor has left the window, every cell of the sweep is
/// reconstructed.
#[verifier::rlimit(50)]
pub proof fn lemma_sweep_end<T, F3: Fn(T, T, T) -> T, F5: Fn(T, T, T, T, T) -> T>(
    order: usize,
    weno3: F3,
    weno5: F5,
    dir: usize,
    w: Block2D<T>,
    wl: Block2D<T>,
    wr: Block2D<T>,
    cur2: int,
    cur1: int,
)
    requires
        dir_ok(dir),
        Hydro::<T>::block_wf(&w),
        w.same_shape(&wl),
        w.same_shape(&wr),
        NGHOST - cols_along(dir, 1) <= cur1 <= w.len1 - NGHOST + cols_along(dir, 1),
        NGHOST - cols_along(dir, 1) >= w.len1 - NGHOST + cols_along(dir, 1) || (if cur1 >= w.len1
            - NGHOST + cols_along(dir, 1) {
            cur2 + 1
        } else {
            cur2
        }) >= w.len2 - NGHOST + rows_along(dir, 1),
        faces_done(
            order,
            weno3,
            weno5,
            dir,
            w.len12 as int,
            w.len1 as int,
            w.len2 as int,
            w.data@,
            wl.data@,
            wr.data@,
            cur2,
            cur1,
        ),
    ensures
        reconstructed(&w, &wl, &wr, dir, order, weno3, weno5),
{
    reveal(faces_done);
    let len12 = w.len12 as int;
    let len1 = w.len1 as int;
    assert forall|n: int, j: int, i: int| 0 <= n < NHYDRO && in_sweep(&w, dir, j, i) implies face_states(
        order,
        weno3,
        weno5,
        w.cell(n, j + rows_along(dir, -2), i + cols_along(dir, -2)),
        w.cell(n, j + rows_along(dir, -1), i + cols_along(dir, -1)),
        w.cell(n, j, i),
        w.cell(n, j + rows_along(dir, 1), i + cols_along(dir, 1)),
        w.cell(n, j + rows_along(dir, 2), i + cols_along(dir, 2)),
        wl.cell(n, j + rows_along(dir, 1), i + cols_along(dir, 1)),
        #[trigger] wr.cell(n, j, i),
    ) by {
        let row = j + NGHOST;
        let col = i + NGHOST;
        assert(in_window(dir, len1, w.len2 as int, row, col));
        assert(before(row, col, cur2, cur1));
        assert(wr.cell(n, j, i) == wr.data@[flat(len12, len1, n, row, col)]);
        assert(w.cell(n, j, i) == w.data@[flat(len12, len1, n, row, col)]);
        assert(w.cell(n, j + rows_along(dir, -2), i + cols_along(dir, -2)) == w.data@[flat(
            len12,
            len1,
            n,
            row + rows_along(dir, -2),
            col + cols_along(dir, -2),
        )]);
        assert(w.cell(n, j + rows_along(dir, -1), i + cols_along(dir, -1)) == w.data@[flat(
            len12,
            len1,
            n,
            row + rows_along(dir, -1),
            col + cols_along(dir, -1),
        )]);
        assert(w.cell(n, j + rows_along(dir, 1), i + cols_along(dir, 1)) == w.data@[flat(
            len12,
            len1,
            n,
            row + rows_along(dir, 1),
            col + cols_along(dir, 1),
        )]);
        assert(w.cell(n, j + rows_along(dir, 2), i + cols_along(dir, 2)) == w.data@[flat(
            len12,
            len1,
            n,
            row + rows_along(dir, 2),
            col + cols_along(dir, 2),
        )]);
        assert(wl.cell(n, j + rows_along(dir, 1), i + cols_along(dir, 1)) == wl.data@[flat(
            len12,
            len1,
            n,
            row + rows_along(dir, 1),
            col + cols_along(dir, 1),
        )]);
    }
}

/// Once the cursor has left the window, a block that was written `shift`
/// cells along `dir` from the cells of the sweep holds its earlier values
/// everywhere else.
#[verifier::rlimit(50)]
pub proof fn lemma_sweep_end_kept<T>(
    dir: usize,
    shift: int,
    earlier: Block2D<T>,
    later: Block2D<T>,
    cur2: int,
    cur1: int,
)
    requires
        dir_ok(dir),
        Hydro::<T>::block_wf(&earlier),
        earlier.same_shape(&later),
        kept(
            dir,
            earlier.len12 as int,
            earlier.len1 as int,
            earlier.len2 as int,
            shift,
            later.data@,
            earlier.data@,
            cur2,
            cur1,
        ),
    ensures
        kept_outside_sweep(&earlier, &later, dir, shift),
{
    reveal(kept);
    let len12 = earlier.len12 as int;
    let len1 = earlier.len1 as int;
    assert forall|n: int, j: int, i: int|
        earlier.in_range(n, j, i) && !in_sweep(
            &earlier,
            dir,
            j - rows_along(dir, shift),
            i - cols_along(dir, shift),
        ) implies #[trigger] later.cell(n, j, i) == earlier.cell(n, j, i) by {
        let row = j + NGHOST;
        let col = i + NGHOST;
        assert(later.data@[flat(len12, len1, n, row, col)] == earlier.data@[flat(len12, len1, n, row, col)]);
    }
}

/// Reconstructs the left states `wl` and the right states `wr` at the faces
/// along `dir` from the cell-centred values `w`.
///
/// At order 1 both states of a cell's faces are the cell's value; at order 3
/// they are `weno3` of the cell and its two neighbours, at order 5 `weno5` of
/// the cell and its four neighbours, the left state with the stencil
/// mirrored. Any other order or direction is refused and nothing is written.
#[verifier::rlimit(50)]
pub fn reconstruct<T: Default + Copy, F3: Fn(T, T, T) -> T, F5: Fn(T, T, T, T, T) -> T>(
    wl: &mut Block2D<T>,
    wr: &mut Block2D<T>,
    w: &Block2D<T>,
    comps: &[usize; NHYDRO],
    dir: usize,
    order: usize,
    weno3: &F3,
    weno5: &F5,
) -> (r: Result<(), InvalidParameter>)
    requires
        Hydro::<T>::block_wf(w),
        old(wl).wf(),
        old(wr).wf(),
        w.same_shape(old(wl)),
        w.same_shape(old(wr)),
        plane_offsets(*comps, w.len12 as int),
        dir_ok(dir) && order_ok(order) ==> reconstructible(w, dir, order, *weno3, *weno5),
    ensures
        final(wl).wf(),
        final(wr).wf(),
        final(wl).same_shape(old(wl)),
        final(wr).same_shape(old(wr)),
        r is Ok <==> dir_ok(dir) && order_ok(order),
        !dir_ok(dir) <==> r == Err::<(), InvalidParameter>(InvalidParameter::Direction),
        dir_ok(dir) && !order_ok(order) <==> r == Err::<(), InvalidParameter>(InvalidParameter::Order),
        r is Err ==> final(wl).data@ == old(wl).data@ && final(wr).data@ == old(wr).data@,
        r is Ok ==> {
            &&& reconstructed(w, final(wl), final(wr), dir, order, *weno3, *weno5)
            &&& kept_outside_sweep(old(wl), final(wl), dir, 1)
            &&& kept_outside_sweep(old(wr), final(wr), dir, 0)
        },
{
    if dir != X1DIR && dir != X2DIR {
        return Err(InvalidParameter::Direction);
    }
    if order != 1 && order != 3 && order != 5 {
        return Err(InvalidParameter::Order);
    }
    let ghost len1 = w.len1 as int;
    let ghost len2 = w.len2 as int;
    let ghost len12 = w.len12 as int;
    let ghost size = w.data@.len() as int;
    let ghost wl0 = wl.data@;
    let ghost wr0 = wr.data@;
    proof {
        assert(size == 5 * len12);
        assert(size >= len12) by (nonlinear_arith)
            requires
                size == 5 * len12,
                len12 >= 0,
        ;
        lemma_sweep_start(order, *weno3, *weno5, dir, len12, len1, len2, w.data@, wl0, wr0);
    }

    let mut l_it = window_along_mut(wl, dir, 1);
    let mut r_it = window_along_mut(wr, dir, 0);

    let mut lo2_it = window_along(w, dir, -2);
    let mut lo1_it = window_along(w, dir, -1);
    let mut c_it = window_along(w, dir, 0);
    let mut hi1_it = window_along(w, dir, 1);
    let mut hi2_it = window_along(w, dir, 2);

    loop
        invariant
            dir_ok(dir),
            order_ok(order),
            2 * NGHOST <= len1,
            2 * NGHOST <= len2,
            len12 == len1 * len2,
            size == 5 * len12,
            w.data@.len() == size,
            wl0.len() == size,
            wr0.len() == size,
            plane_offsets(*comps, len12),
            reconstructible(w, dir, order, *weno3, *weno5),
            Hydro::<T>::block_wf(w),
            w.len1 == len1,
            w.len2 == len2,
            w.len12 == len12,
            c_it.wf(),
            c_it.len1 == len1,
            c_it.start1 == NGHOST - cols_along(dir, 1),
            c_it.end1 == len1 - NGHOST + cols_along(dir, 1),
            c_it.end2 == len2 - NGHOST + rows_along(dir, 1),
            NGHOST - rows_along(dir, 1) <= c_it.current2,
            c_it.data@ == w.data@,
            lo2_it.wf(),
            lo2_it.data@ == w.data@,
            aligned(&lo2_it, &c_it, dir, -2),
            lo1_it.wf(),
            lo1_it.data@ == w.data@,
            aligned(&lo1_it, &c_it, dir, -1),
            hi1_it.wf(),
            hi1_it.data@ == w.data@,
            aligned(&hi1_it, &c_it, dir, 1),
            hi2_it.wf(),
            hi2_it.data@ == w.data@,
            aligned(&hi2_it, &c_it, dir, 2),
            l_it.wf(),
            l_it.data@.len() == size,
            aligned_mut(&l_it, &c_it, dir, 1),
            r_it.wf(),
            r_it.data@.len() == size,
            aligned_mut(&r_it, &c_it, dir, 0),
            faces_done(
                order,
                *weno3,
                *weno5,
                dir,
                len12,
                len1,
                len2,
                w.data@,
                l_it.data@,
                r_it.data@,
                c_it.current2 as int,
                c_it.current1 as int,
            ),
            kept(dir, len12, len1, len2, 1, l_it.data@, wl0, c_it.current2 as int, c_it.current1 as int),
            kept(dir, len12, len1, len2, 0, r_it.data@, wr0, c_it.current2 as int, c_it.current1 as int),
            after_borrow(*wl).data@ == final(l_it.data)@,
            after_borrow(*wl).same_shape(old(wl)),
            after_borrow(*wr).data@ == final(r_it.data)@,
            after_borrow(*wr).same_shape(old(wr)),
        ensures
            c_it.exhausted(),
            c_it.start1 == NGHOST - cols_along(dir, 1),
            c_it.end1 == len1 - NGHOST + cols_along(dir, 1),
            c_it.end2 == len2 - NGHOST + rows_along(dir, 1),
            c_it.start1 <= c_it.current1 <= c_it.end1,
            l_it.data@.len() == size,
            r_it.data@.len() == size,
            faces_done(
                order,
                *weno3,
                *weno5,
                dir,
                len12,
                len1,
                len2,
                w.data@,
                l_it.data@,
                r_it.data@,
                c_it.current2 as int,
                c_it.current1 as int,
            ),
            kept(dir, len12, len1, len2, 1, l_it.data@, wl0, c_it.current2 as int, c_it.current1 as int),
            kept(dir, len12, len1, len2, 0, r_it.data@, wr0, c_it.current2 as int, c_it.current1 as int),
            after_borrow(*wl).data@ == final(l_it.data)@,
            after_borrow(*wl).same_shape(old(wl)),
            after_borrow(*wr).data@ == final(r_it.data)@,
            after_borrow(*wr).same_shape(old(wr)),
        decreases c_it.remaining(),
    {
        let ghost cur2 = c_it.current2 as int;
        let ghost cur1 = c_it.current1 as int;
        let ghost row0 = c_it.row();
        let ghost col0 = c_it.col();
        let ghost l_data = l_it.data@;
        let ghost r_data = r_it.data@;
        match (
            l_it.next(),
            r_it.next(),
            lo2_it.next(),
            lo1_it.next(),
            c_it.next(),
            hi1_it.next(),
            hi2_it.next(),
        ) {
            (Some(l), Some(r), Some(lo2), Some(lo1), Some(c), Some(hi1), Some(hi2)) => {
                let ghost l_cell = l@;
                let ghost r_cell = r@;
                let ghost l_row = row0 + rows_along(dir, 1);
                let ghost l_col = col0 + cols_along(dir, 1);
                proof {
                    let d = w.data@;
                    let (r1, c1) = (rows_along(dir, 1), cols_along(dir, 1));
                    let (r2, c2) = (rows_along(dir, 2), cols_along(dir, 2));
                    lemma_cell_reads(len12, len1, len2, *comps, d, lo2@, row0 - r2, col0 - c2);
                    lemma_cell_reads(len12, len1, len2, *comps, d, lo1@, row0 - r1, col0 - c1);
                    lemma_cell_reads(len12, len1, len2, *comps, d, c@, row0, col0);
                    lemma_cell_reads(len12, len1, len2, *comps, d, hi1@, l_row, l_col);
                    lemma_cell_reads(len12, len1, len2, *comps, d, hi2@, row0 + r2, col0 + c2);
                    lemma_cell_reads(len12, len1, len2, *comps, l_data, l_cell, l_row, l_col);
                    lemma_cell_reads(len12, len1, len2, *comps, r_data, r_cell, row0, col0);
                    lemma_cell_accepted(
                        order,
                        *weno3,
                        *weno5,
                        dir,
                        *w,
                        *comps,
                        lo2@,
                        lo1@,
                        c@,
                        hi1@,
                        hi2@,
                        row0,
                        col0,
                    );
                }
                let done = reconstruct_cell(l, r, lo2, lo1, c, hi1, hi2, comps, order, weno3, weno5);
                assert(done is Ok);
                proof {
                    let l_now = l_data.subrange(0, plane_index(len1, l_row, l_col)) + l@;
                    let r_now = r_data.subrange(0, plane_index(len1, row0, col0)) + r@;
                    lemma_cell_written(l_data, l_now, l_cell, l@, plane_index(len1, l_row, l_col), *comps);
                    lemma_cell_written(r_data, r_now, r_cell, r@, plane_index(len1, row0, col0), *comps);
                    lemma_other_cells_kept(len12, len1, len2, *comps, l_data, l_now, l_row, l_col);
                    lemma_other_cells_kept(len12, len1, len2, *comps, r_data, r_now, row0, col0);
                    assert forall|n: int| 0 <= n < NHYDRO implies face_states(
                        order,
                        *weno3,
                        *weno5,
                        w.data@[flat(len12, len1, n, row0 + rows_along(dir, -2), col0 + cols_along(dir, -2))],
                        w.data@[flat(len12, len1, n, row0 + rows_along(dir, -1), col0 + cols_along(dir, -1))],
                        w.data@[flat(len12, len1, n, row0, col0)],
                        w.data@[flat(len12, len1, n, row0 + rows_along(dir, 1), col0 + cols_along(dir, 1))],
                        w.data@[flat(len12, len1, n, row0 + rows_along(dir, 2), col0 + cols_along(dir, 2))],
                        l_now[flat(len12, len1, n, row0 + rows_along(dir, 1), col0 + cols_along(dir, 1))],
                        r_now[#[trigger] flat(len12, len1, n, row0, col0)],
                    ) by {
                        let k = comps[n];
                        assert(l_now[plane_index(len1, l_row, l_col) + k] == l@[k as int]);
                        assert(r_now[plane_index(len1, row0, col0) + k] == r@[k as int]);
                    }
                    lemma_sweep_step(
                        order,
                        *weno3,
                        *weno5,
                        dir,
                        len12,
                        len1,
                        len2,
                        w.data@,
                        wl0,
                        wr0,
                        l_data,
                        l_now,
                        r_data,
                        r_now,
                        cur2,
                        cur1,
                        row0,
                        col0,
                    );
                }
            },
            _ => {
                break ;
            },
        }
    }
    proof {
        lemma_sweep_end(
            order,
            *weno3,
            *weno5,
            dir,
            *w,
            *wl,
            *wr,
            c_it.current2 as int,
            c_it.current1 as int,
        );
        lemma_sweep_end_kept(dir, 1, *old(wl), *wl, c_it.current2 as int, c_it.current1 as int);
        lemma_sweep_end_kept(dir, 0, *old(wr), *wr, c_it.current2 as int, c_it.current1 as int);
    }
    Ok(())
}


impl<T: Default + Copy> Hydro<T> {
    /// Reconstructs the left and right states at the faces along x1 from the
    /// primitive variables of `eos`.
    ///
    /// ```text
    /// | w_{-2} | w_{-1} |* w_{0} *| w_{1} | w_{2} |
    ///                    ^       ^
    ///                    |       |
    ///                    wr(i)   wl(i+1)
    /// ```
    ///
    /// An order other than 1, 3 and 5 is refused and nothing is written. The
    /// states of the other direction and the fluxes are never touched.
    pub fn reconstruct_x1<F3: Fn(T, T, T) -> T, F5: Fn(T, T, T, T, T) -> T>(
        &mut self,
        eos: &EquationOfState<T>,
        order: usize,
        weno3: F3,
        weno5: F5,
    ) -> (r: Result<(), InvalidParameter>)
        requires
            old(self).wf(),
            eos.wf(),
            eos.w.same_shape(&old(self).wls[0]),
            order_ok(order) ==> reconstructible(&eos.w, X1DIR, order, weno3, weno5),
        ensures
            final(self).wf(),
            final(self).comps == old(self).comps,
            final(self).wls[1] == old(self).wls[1],
            final(self).wrs[1] == old(self).wrs[1],
            final(self).flx == old(self).flx,
            final(self).wls[0].same_shape(&old(self).wls[0]),
            final(self).wrs[0].same_shape(&old(self).wrs[0]),
            order_ok(order) <==> r is Ok,
            r is Err ==> r == Err::<(), InvalidParameter>(InvalidParameter::Order),
            r is Err ==> final(self).wls[0].data@ == old(self).wls[0].data@ && final(self).wrs[0].data@
                == old(self).wrs[0].data@,
            r is Ok ==> {
                &&& reconstructed(
                    &eos.w,
                    &final(self).wls[0],
                    &final(self).wrs[0],
                    X1DIR,
                    order,
                    weno3,
                    weno5,
                )
                &&& kept_outside_sweep(&old(self).wls[0], &final(self).wls[0], X1DIR, 1)
                &&& kept_outside_sweep(&old(self).wrs[0], &final(self).wrs[0], X1DIR, 0)
            },
    {
        reconstruct(
            &mut self.wls[X1DIR],
            &mut self.wrs[X1DIR],
            &eos.w,
            &self.comps,
            X1DIR,
            order,
            &weno3,
            &weno5,
        )
    }

    /// Reconstructs the left and right states at the faces along x2 from the
    /// primitive variables of `eos`.
    ///
    /// ```text
    /// ------
    /// w_{-2}
    /// ------
    /// w_{-1}
    /// ------ <- wr(i)
    /// w_{0}
    /// ------ <- wl(i+1)
    /// w_{1}
    /// ------
    /// w_{2}
    /// ```
    ///
    /// An order other than 1, 3 and 5 is refused and nothing is written. The
    /// states of the other direction and the fluxes are never touched.
    pub fn reconstruct_x2<F3: Fn(T, T, T) -> T, F5: Fn(T, T, T, T, T) -> T>(
        &mut self,
        eos: &EquationOfState<T>,
        order: usize,
        weno3: F3,
        weno5: F5,
    ) -> (r: Result<(), InvalidParameter>)
        requires
            old(self).wf(),
            eos.wf(),
            eos.w.same_shape(&old(self).wls[0]),
            order_ok(order) ==> reconstructible(&eos.w, X2DIR, order, weno3, weno5),
        ensures
            final(self).wf(),
            final(self).comps == old(self).comps,
            final(self).wls[0] == old(self).wls[0],
            final(self).wrs[0] == old(self).wrs[0],
            final(self).flx == old(self).flx,
            final(self).wls[1].same_shape(&old(self).wls[1]),
            final(self).wrs[1].same_shape(&old(self).wrs[1]),
            order_ok(order) <==> r is Ok,
            r is Err ==> r == Err::<(), InvalidParameter>(InvalidParameter::Order),
            r is Err ==> final(self).wls[1].data@ == old(self).wls[1].data@ && final(self).wrs[1].data@
                == old(self).wrs[1].data@,
            r is Ok ==> {
                &&& reconstructed(
                    &eos.w,
                    &final(self).wls[1],
                    &final(self).wrs[1],
                    X2DIR,
                    order,
                    weno3,
                    weno5,
                )
                &&& kept_outside_sweep(&old(self).wls[1], &final(self).wls[1], X2DIR, 1)
                &&& kept_outside_sweep(&old(self).wrs[1], &final(self).wrs[1], X2DIR, 0)
            },
    {
        reconstruct(
            &mut self.wls[X2DIR],
            &mut self.wrs[X2DIR],
            &eos.w,
            &self.comps,
            X2DIR,
            order,
            &weno3,
            &weno5,
        )
    }
}

} // verus!
