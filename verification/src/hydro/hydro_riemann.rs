//! Face fluxes from the reconstructed face states.
//!
//! ```text
//! |  w_{-1} *|*  w_{0}  |
//!           ^ ^
//!           | |
//!       wl(i) wr(i)
//! ```
//!
//! At every face between active cells, and at the two faces that bound them,
//! the left and the right state are handed to the Riemann solver and the
//! flux it returns is stored at the same position.
use vstd::prelude::*;
use crate::block::block2d::{before, plane_index, Block2D};
use crate::block::iterator2d::{Iterator2D, Iterator2DMut};
use crate::eos::eos::plane_offsets;
use crate::hydro::hydro::Hydro;
use crate::hydro::hydro_reconstruct::{
    cols_along,
    dir_ok,
    flat,
    lemma_cell_reads,
    lemma_cell_written,
    lemma_other_cells_kept,
    rows_along,
};
use crate::riemann::roe_shallow_water::{face_state, normal_var, roe_shallow_water, tangential_var};
use crate::utils::defs::{InvalidParameter, NGHOST, NHYDRO, X1DIR, X2DIR};

verus! {

/// `(j, i)` is a face along `dir` between active cells or at their boundary.
pub open spec fn in_faces<T>(block: &Block2D<T>, dir: usize, j: int, i: int) -> bool {
    &&& 0 <= j < block.dim2() + rows_along(dir, 1)
    &&& 0 <= i < block.dim1() + cols_along(dir, 1)
}

/// Depth, normal velocity and tangential velocity that `block` holds at face
/// `(j, i)` of direction `dir`.
pub open spec fn state_at_face<T>(block: &Block2D<T>, dir: usize, j: int, i: int) -> (T, T, T) {
    (block.cell(0, j, i), block.cell(normal_var(dir), j, i), block.cell(tangential_var(dir), j, i))
}

/// `flux` accepts the left state in `wl` and the right state in `wr` at every
/// face along `dir`.
pub open spec fn solvable<T, F: Fn((T, T, T), (T, T, T)) -> (T, T, T)>(
    wl: &Block2D<T>,
    wr: &Block2D<T>,
    dir: usize,
    flux: F,
) -> bool {
    forall|j: int, i: int|
        in_faces(wl, dir, j, i) ==> call_requires(
            flux,
            (#[trigger] state_at_face(wl, dir, j, i), state_at_face(wr, dir, j, i)),
        )
}

/// At every face along `dir`, `flx` holds a flux that `flux` gives for the
/// left state in `wl` and the right state in `wr`.
pub open spec fn fluxes_solved<T, F: Fn((T, T, T), (T, T, T)) -> (T, T, T)>(
    wl: &Block2D<T>,
    wr: &Block2D<T>,
    flx: &Block2D<T>,
    dir: usize,
    flux: F,
) -> bool {
    forall|j: int, i: int|
        in_faces(wl, dir, j, i) ==> call_ensures(
            flux,
            (state_at_face(wl, dir, j, i), state_at_face(wr, dir, j, i)),
            #[trigger] state_at_face(flx, dir, j, i),
        )
}

/// `later` holds what `earlier` held wherever the sweep along `dir` stores no
/// flux: away from the faces, and at the last two variables everywhere.
pub open spec fn kept_outside_faces<T>(earlier: &Block2D<T>, later: &Block2D<T>, dir: usize) -> bool {
    forall|n: int, j: int, i: int|
        earlier.in_range(n, j, i) && !(n <= 2 && in_faces(earlier, dir, j, i)) ==> #[trigger] later.cell(
            n,
            j,
            i,
        ) == earlier.cell(n, j, i)
}

/// Padded cell `(row, col)` is a face of the sweep along `dir` over a grid of
/// `len2` by `len1` padded cells.
pub open spec fn in_face_window(dir: usize, len1: int, len2: int, row: int, col: int) -> bool {
    &&& NGHOST <= row < len2 - NGHOST + rows_along(dir, 1)
    &&& NGHOST <= col < len1 - NGHOST + cols_along(dir, 1)
}

/// Depth, normal velocity and tangential velocity that the buffer `data`
/// holds at padded cell `(row, col)`.
pub open spec fn buffer_face_state<T>(
    data: Seq<T>,
    dir: usize,
    len12: int,
    len1: int,
    row: int,
    col: int,
) -> (T, T, T) {
    (
        data[flat(len12, len1, 0, row, col)],
        data[flat(len12, len1, normal_var(dir), row, col)],
        data[flat(len12, len1, tangential_var(dir), row, col)],
    )
}

/// The faces of the window that come before `(r, c)` hold their flux.
#[verifier::opaque]
pub open spec fn fluxes_done<T, F: Fn((T, T, T), (T, T, T)) -> (T, T, T)>(
    flux: F,
    dir: usize,
    len12: int,
    len1: int,
    len2: int,
    wl: Seq<T>,
    wr: Seq<T>,
    f: Seq<T>,
    r: int,
    c: int,
) -> bool {
    forall|row: int, col: int|
        in_face_window(dir, len1, len2, row, col) && before(row, col, r, c) ==> call_ensures(
            flux,
            (
                buffer_face_state(wl, dir, len12, len1, row, col),
                buffer_face_state(wr, dir, len12, len1, row, col),
            ),
            #[trigger] buffer_face_state(f, dir, len12, len1, row, col),
        )
}

/// The buffer `f` holds what `f0` held wherever no flux was stored before
/// the cursor reached `(r, c)`.
#[verifier::opaque]
pub open spec fn flux_kept<T>(
    dir: usize,
    len12: int,
    len1: int,
    len2: int,
    f: Seq<T>,
    f0: Seq<T>,
    r: int,
    c: int,
) -> bool {
    forall|n: int, row: int, col: int|
        0 <= n < NHYDRO && 0 <= row < len2 && 0 <= col < len1 && !(n <= 2 && in_face_window(
            dir,
            len1,
            len2,
            row,
            col,
        ) && before(row, col, r, c)) ==> f[#[trigger] flat(len12, len1, n, row, col)] == f0[flat(
            len12,
            len1,
            n,
            row,
            col,
        )]
}

/// Before the first step no face holds a flux and the buffer holds what it
/// held.
pub proof fn lemma_faces_start<T, F: Fn((T, T, T), (T, T, T)) -> (T, T, T)>(
    flux: F,
    dir: usize,
    len12: int,
    len1: int,
    len2: int,
    wl: Seq<T>,
    wr: Seq<T>,
    f0: Seq<T>,
)
    ensures
        fluxes_done(flux, dir, len12, len1, len2, wl, wr, f0, NGHOST as int, NGHOST as int),
        flux_kept(dir, len12, len1, len2, f0, f0, NGHOST as int, NGHOST as int),
{
    reveal(fluxes_done);
    reveal(flux_kept);
}

/// One step of the sweep: with the faces before the cursor `(cur2, cur1)`
/// solved, solving the face `(row0, col0)` at which the cursor stands leaves
/// the faces before `(row0, col0 + 1)` solved.
#[verifier::rlimit(50)]
pub proof fn lemma_faces_step<T, F: Fn((T, T, T), (T, T, T)) -> (T, T, T)>(
    flux: F,
    dir: usize,
    len12: int,
    len1: int,
    len2: int,
    wl: Seq<T>,
    wr: Seq<T>,
    f0: Seq<T>,
    f_old: Seq<T>,
    f_new: Seq<T>,
    cur2: int,
    cur1: int,
    row0: int,
    col0: int,
)
    requires
        dir_ok(dir),
        2 * NGHOST <= len1,
        2 * NGHOST <= len2,
        NGHOST <= cur1 <= len1 - NGHOST + cols_along(dir, 1),
        row0 == (if cur1 >= len1 - NGHOST + cols_along(dir, 1) {
            cur2 + 1
        } else {
            cur2
        }),
        col0 == (if cur1 >= len1 - NGHOST + cols_along(dir, 1) {
            NGHOST as int
        } else {
            cur1
        }),
        in_face_window(dir, len1, len2, row0, col0),
        fluxes_done(flux, dir, len12, len1, len2, wl, wr, f_old, cur2, cur1),
        flux_kept(dir, len12, len1, len2, f_old, f0, cur2, cur1),
        forall|n: int, row: int, col: int|
            0 <= n < NHYDRO && 0 <= row < len2 && 0 <= col < len1 && (row != row0 || col != col0)
                ==> f_new[#[trigger] flat(len12, len1, n, row, col)] == f_old[flat(
                len12,
                len1,
                n,
                row,
                col,
            )],
        f_new[flat(len12, len1, 3, row0, col0)] == f_old[flat(len12, len1, 3, row0, col0)],
        f_new[flat(len12, len1, 4, row0, col0)] == f_old[flat(len12, len1, 4, row0, col0)],
        call_ensures(
            flux,
            (
                buffer_face_state(wl, dir, len12, len1, row0, col0),
                buffer_face_state(wr, dir, len12, len1, row0, col0),
            ),
            buffer_face_state(f_new, dir, len12, len1, row0, col0),
        ),
    ensures
        fluxes_done(flux, dir, len12, len1, len2, wl, wr, f_new, row0, col0 + 1),
        flux_kept(dir, len12, len1, len2, f_new, f0, row0, col0 + 1),
{
    reveal(fluxes_done);
    reveal(flux_kept);
    assert forall|row: int, col: int|
        in_face_window(dir, len1, len2, row, col) && before(row, col, row0, col0 + 1) implies call_ensures(
        flux,
        (
            buffer_face_state(wl, dir, len12, len1, row, col),
            buffer_face_state(wr, dir, len12, len1, row, col),
        ),
        #[trigger] buffer_face_state(f_new, dir, len12, len1, row, col),
    ) by {
        if row != row0 || col != col0 {
            assert(before(row, col, cur2, cur1));
            assert(f_new[flat(len12, len1, 0, row, col)] == f_old[flat(len12, len1, 0, row, col)]);
            assert(f_new[flat(len12, len1, 1, row, col)] == f_old[flat(len12, len1, 1, row, col)]);
            assert(f_new[flat(len12, len1, 2, row, col)] == f_old[flat(len12, len1, 2, row, col)]);
            assert(buffer_face_state(f_new, dir, len12, len1, row, col) == buffer_face_state(
                f_old,
                dir,
                len12,
                len1,
                row,
                col,
            ));
        }
    }
    assert forall|n: int, row: int, col: int|
        0 <= n < NHYDRO && 0 <= row < len2 && 0 <= col < len1 && !(n <= 2 && in_face_window(
            dir,
            len1,
            len2,
            row,
            col,
        ) && before(row, col, row0, col0 + 1)) implies f_new[#[trigger] flat(len12, len1, n, row, col)]
        == f0[flat(len12, len1, n, row, col)] by {
        assert(f_new[flat(len12, len1, n, row, col)] == f_old[flat(len12, len1, n, row, col)]);
    }
}

/// Once the cursor has left the window, the buffer holds what the sweep
/// promises of the block.
#[verifier::rlimit(50)]
pub proof fn lemma_faces_end<T, F: Fn((T, T, T), (T, T, T)) -> (T, T, T)>(
    flux: F,
    dir: usize,
    wl: Block2D<T>,
    wr: Block2D<T>,
    flx0: Block2D<T>,
    flx: Block2D<T>,
    cur2: int,
    cur1: int,
)
    requires
        dir_ok(dir),
        Hydro::<T>::block_wf(&wl),
        wl.same_shape(&wr),
        wl.same_shape(&flx0),
        wl.same_shape(&flx),
        NGHOST <= cur1 <= wl.len1 - NGHOST + cols_along(dir, 1),
        NGHOST >= wl.len1 - NGHOST + cols_along(dir, 1) || (if cur1 >= wl.len1 - NGHOST + cols_along(
            dir,
            1,
        ) {
            cur2 + 1
        } else {
            cur2
        }) >= wl.len2 - NGHOST + rows_along(dir, 1),
        fluxes_done(
            flux,
            dir,
            wl.len12 as int,
            wl.len1 as int,
            wl.len2 as int,
            wl.data@,
            wr.data@,
            flx.data@,
            cur2,
            cur1,
        ),
        flux_kept(dir, wl.len12 as int, wl.len1 as int, wl.len2 as int, flx.data@, flx0.data@, cur2, cur1),
    ensures
        fluxes_solved(&wl, &wr, &flx, dir, flux),
        kept_outside_faces(&flx0, &flx, dir),
{
    reveal(fluxes_done);
    reveal(flux_kept);
    let len12 = wl.len12 as int;
    let len1 = wl.len1 as int;
    let len2 = wl.len2 as int;
    assert forall|j: int, i: int| in_faces(&wl, dir, j, i) implies call_ensures(
        flux,
        (state_at_face(&wl, dir, j, i), state_at_face(&wr, dir, j, i)),
        #[trigger] state_at_face(&flx, dir, j, i),
    ) by {
        let row = j + NGHOST;
        let col = i + NGHOST;
        assert(in_face_window(dir, len1, len2, row, col));
        assert(before(row, col, cur2, cur1));
        assert(state_at_face(&flx, dir, j, i) == buffer_face_state(flx.data@, dir, len12, len1, row, col));
        assert(state_at_face(&wl, dir, j, i) == buffer_face_state(wl.data@, dir, len12, len1, row, col));
        assert(state_at_face(&wr, dir, j, i) == buffer_face_state(wr.data@, dir, len12, len1, row, col));
    }
    assert forall|n: int, j: int, i: int|
        flx0.in_range(n, j, i) && !(n <= 2 && in_faces(&flx0, dir, j, i)) implies #[trigger] flx.cell(
        n,
        j,
        i,
    ) == flx0.cell(n, j, i) by {
        let row = j + NGHOST;
        let col = i + NGHOST;
        assert(flx.data@[flat(len12, len1, n, row, col)] == flx0.data@[flat(len12, len1, n, row, col)]);
    }
}

/// The read-only view over the faces along `dir`.
pub fn faces_along<T: Default + Copy>(block: &Block2D<T>, dir: usize) -> (it: Iterator2D<'_, T>)
    requires
        block.wf(),
        block.nghost >= 1,
        dir_ok(dir),
    ensures
        it == block.window(
            block.nghost as int,
            block.len2 - block.nghost + rows_along(dir, 1),
            block.nghost as int,
            block.len1 - block.nghost + cols_along(dir, 1),
        ),
        block.data@.len() >= block.len12 ==> it.wf(),
{
    if dir == X1DIR {
        block.interior_f1()
    } else {
        block.interior_f2()
    }
}

/// The exclusive view over the faces along `dir`.
pub fn faces_along_mut<T: Default + Copy>(block: &mut Block2D<T>, dir: usize) -> (it: Iterator2DMut<
    '_,
    T,
>)
    requires
        old(block).wf(),
        old(block).nghost >= 1,
        dir_ok(dir),
    ensures
        it.at_window(
            old(block).len1 as int,
            old(block).nghost as int,
            old(block).len2 - old(block).nghost + rows_along(dir, 1),
            old(block).nghost as int,
            old(block).len1 - old(block).nghost + cols_along(dir, 1),
        ),
        it.data@ == old(block).data@,
        old(block).data@.len() >= old(block).len12 ==> it.wf(),
        final(block).data@ == final(it.data)@,
        final(block).same_shape(old(block)),
{
    if dir == X1DIR {
        block.interior_f1_mut()
    } else {
        block.interior_f2_mut()
    }
}

/// Solves the Riemann problem at every face along `dir`: the left states come
/// from `wl`, the right states from `wr`, and the fluxes go to `flx`. A
/// direction other than `X1DIR` and `X2DIR` is refused and nothing is
/// written.
#[verifier::rlimit(50)]
pub fn solve_faces<T: Default + Copy, F: Fn((T, T, T), (T, T, T)) -> (T, T, T)>(
    flx: &mut Block2D<T>,
    wl: &Block2D<T>,
    wr: &Block2D<T>,
    comps: &[usize; NHYDRO],
    dir: usize,
    flux: &F,
) -> (r: Result<(), InvalidParameter>)
    requires
        Hydro::<T>::block_wf(wl),
        wr.wf(),
        old(flx).wf(),
        wl.same_shape(wr),
        wl.same_shape(old(flx)),
        plane_offsets(*comps, wl.len12 as int),
        dir_ok(dir) ==> solvable(wl, wr, dir, *flux),
    ensures
        final(flx).wf(),
        final(flx).same_shape(old(flx)),
        r is Ok <==> dir_ok(dir),
        r is Err ==> r == Err::<(), InvalidParameter>(InvalidParameter::Direction),
        r is Err ==> final(flx).data@ == old(flx).data@,
        r is Ok ==> fluxes_solved(wl, wr, final(flx), dir, *flux),
        r is Ok ==> kept_outside_faces(old(flx), final(flx), dir),
{
    if dir != X1DIR && dir != X2DIR {
        return Err(InvalidParameter::Direction);
    }
    let ghost len1 = wl.len1 as int;
    let ghost len2 = wl.len2 as int;
    let ghost len12 = wl.len12 as int;
    let ghost size = wl.data@.len() as int;
    let ghost f0 = flx.data@;
    proof {
        assert(size == 5 * len12);
        assert(size >= len12) by (nonlinear_arith)
            requires
                size == 5 * len12,
                len12 >= 0,
        ;
        lemma_faces_start(*flux, dir, len12, len1, len2, wl.data@, wr.data@, f0);
    }
    let pos: [usize; 1] = [0];

    let mut l_it = faces_along(wl, dir);
    let mut r_it = faces_along(wr, dir);
    let mut f_it = faces_along_mut(flx, dir);

    loop
        invariant
            dir_ok(dir),
            2 * NGHOST <= len1,
            2 * NGHOST <= len2,
            len12 == len1 * len2,
            size == 5 * len12,
            f0.len() == size,
            plane_offsets(*comps, len12),
            solvable(wl, wr, dir, *flux),
            Hydro::<T>::block_wf(wl),
            wl.same_shape(wr),
            wl.len1 == len1,
            wl.len2 == len2,
            wl.len12 == len12,
            l_it.wf(),
            l_it.len1 == len1,
            l_it.start1 == NGHOST,
            l_it.end1 == len1 - NGHOST + cols_along(dir, 1),
            l_it.end2 == len2 - NGHOST + rows_along(dir, 1),
            NGHOST <= l_it.current2,
            l_it.data@ == wl.data@,
            l_it.data@.len() == size,
            r_it.wf(),
            r_it.len1 == len1,
            r_it.start1 == l_it.start1,
            r_it.end1 == l_it.end1,
            r_it.end2 == l_it.end2,
            r_it.current1 == l_it.current1,
            r_it.current2 == l_it.current2,
            r_it.data@ == wr.data@,
            r_it.data@.len() == size,
            f_it.wf(),
            f_it.len1 == len1,
            f_it.start1 == l_it.start1,
            f_it.end1 == l_it.end1,
            f_it.end2 == l_it.end2,
            f_it.current1 == l_it.current1,
            f_it.current2 == l_it.current2,
            f_it.data@.len() == size,
            fluxes_done(
                *flux,
                dir,
                len12,
                len1,
                len2,
                wl.data@,
                wr.data@,
                f_it.data@,
                l_it.current2 as int,
                l_it.current1 as int,
            ),
            flux_kept(dir, len12, len1, len2, f_it.data@, f0, l_it.current2 as int, l_it.current1 as int),
            after_borrow(*flx).data@ == final(f_it.data)@,
            after_borrow(*flx).same_shape(old(flx)),
        ensures
            l_it.exhausted(),
            l_it.start1 == NGHOST,
            l_it.end1 == len1 - NGHOST + cols_along(dir, 1),
            l_it.end2 == len2 - NGHOST + rows_along(dir, 1),
            l_it.start1 <= l_it.current1 <= l_it.end1,
            f_it.data@.len() == size,
            fluxes_done(
                *flux,
                dir,
                len12,
                len1,
                len2,
                wl.data@,
                wr.data@,
                f_it.data@,
                l_it.current2 as int,
                l_it.current1 as int,
            ),
            flux_kept(dir, len12, len1, len2, f_it.data@, f0, l_it.current2 as int, l_it.current1 as int),
            after_borrow(*flx).data@ == final(f_it.data)@,
            after_borrow(*flx).same_shape(old(flx)),
        decreases l_it.remaining(),
    {
        let ghost cur2 = l_it.current2 as int;
        let ghost cur1 = l_it.current1 as int;
        let ghost row0 = l_it.row();
        let ghost col0 = l_it.col();
        let ghost f_data = f_it.data@;
        match (f_it.next(), l_it.next(), r_it.next()) {
            (Some(f), Some(l), Some(r)) => {
                let ghost f_cell = f@;
                proof {
                    lemma_cell_reads(len12, len1, len2, *comps, wl.data@, l@, row0, col0);
                    lemma_cell_reads(len12, len1, len2, *comps, wr.data@, r@, row0, col0);
                    lemma_cell_reads(len12, len1, len2, *comps, f_data, f_cell, row0, col0);
                    assert(in_faces(wl, dir, row0 - NGHOST, col0 - NGHOST));
                    assert(face_state(l@, *comps, dir) == state_at_face(
                        wl,
                        dir,
                        row0 - NGHOST,
                        col0 - NGHOST,
                    ));
                    assert(face_state(r@, *comps, dir) == state_at_face(
                        wr,
                        dir,
                        row0 - NGHOST,
                        col0 - NGHOST,
                    ));
                }
                let solved = roe_shallow_water(f, l, r, dir, comps, pos.as_slice(), flux);
                assert(solved is Ok);
                proof {
                    let f_now = f_data.subrange(0, plane_index(len1, row0, col0)) + f@;
                    lemma_cell_written(f_data, f_now, f_cell, f@, plane_index(len1, row0, col0), *comps);
                    lemma_other_cells_kept(len12, len1, len2, *comps, f_data, f_now, row0, col0);
                    assert(f_now[plane_index(len1, row0, col0) + comps[0]] == f@[comps[0] as int]);
                    assert(f_now[plane_index(len1, row0, col0) + comps[1]] == f@[comps[1] as int]);
                    assert(f_now[plane_index(len1, row0, col0) + comps[2]] == f@[comps[2] as int]);
                    assert(f_now[plane_index(len1, row0, col0) + comps[3]] == f@[comps[3] as int]);
                    assert(f_now[plane_index(len1, row0, col0) + comps[4]] == f@[comps[4] as int]);
                    assert(buffer_face_state(f_now, dir, len12, len1, row0, col0) == face_state(
                        f@,
                        *comps,
                        dir,
                    ));
                    assert(buffer_face_state(wl.data@, dir, len12, len1, row0, col0) == face_state(
                        l@,
                        *comps,
                        dir,
                    ));
                    assert(buffer_face_state(wr.data@, dir, len12, len1, row0, col0) == face_state(
                        r@,
                        *comps,
                        dir,
                    ));
                    lemma_faces_step(
                        *flux,
                        dir,
                        len12,
                        len1,
                        len2,
                        wl.data@,
                        wr.data@,
                        f0,
                        f_data,
                        f_now,
                        cur2,
                        cur1,
                        row0,
                        col0,
                    );
                }
            },
            _ => {
                break ;
            },
        }
    }
    proof {
        lemma_faces_end(
            *flux,
            dir,
            *wl,
            *wr,
            *old(flx),
            *flx,
            l_it.current2 as int,
            l_it.current1 as int,
        );
    }
    Ok(())
}

impl<T: Default + Copy> Hydro<T> {
    /// Computes the fluxes through the faces along x1 from the left and right
    /// states that the reconstruction along x1 left there. Nothing but the
    /// x1 fluxes is written.
    pub fn riemann_solver_x1<F: Fn((T, T, T), (T, T, T)) -> (T, T, T)>(&mut self, flux: F)
        requires
            old(self).wf(),
            solvable(&old(self).wls[0], &old(self).wrs[0], X1DIR, flux),
        ensures
            final(self).wf(),
            final(self).comps == old(self).comps,
            final(self).wls == old(self).wls,
            final(self).wrs == old(self).wrs,
            final(self).flx[1] == old(self).flx[1],
            final(self).flx[0].same_shape(&old(self).flx[0]),
            fluxes_solved(&old(self).wls[0], &old(self).wrs[0], &final(self).flx[0], X1DIR, flux),
            kept_outside_faces(&old(self).flx[0], &final(self).flx[0], X1DIR),
    {
        let solved = solve_faces(
            &mut self.flx[X1DIR],
            &self.wls[X1DIR],
            &self.wrs[X1DIR],
            &self.comps,
            X1DIR,
            &flux,
        );
        assert(solved is Ok);
    }
}

} // verus!
