//! Shallow-water Riemann problem at one face.
//!
//! The left and right states of a face are depth (stored in the density
//! slot), the velocity normal to the face and the velocity along it. Which of
//! the two stored velocity components is the normal one depends on the
//! direction of the face. The flux has the same three components and is
//! written through the same plane offsets. The wave decomposition that turns
//! two states into a flux is a function that the caller supplies.
use vstd::prelude::*;
use crate::utils::common::set_comp;
use crate::utils::defs::{InvalidParameter, NHYDRO, X1DIR, X2DIR};

verus! {

/// Index of the variable that holds the velocity normal to a face of
/// direction `dir`.
pub open spec fn normal_var(dir: usize) -> int {
    if dir == X1DIR {
        1
    } else {
        2
    }
}

/// Index of the variable that holds the velocity along a face of direction
/// `dir`.
pub open spec fn tangential_var(dir: usize) -> int {
    if dir == X1DIR {
        2
    } else {
        1
    }
}

/// The plane offsets of depth and of the two velocities address three
/// different elements of a cell handle of length `len`.
pub open spec fn face_comps_fit(comps: [usize; NHYDRO], len: int) -> bool {
    &&& comps[0] < len
    &&& comps[1] < len
    &&& comps[2] < len
    &&& comps[0] != comps[1]
    &&& comps[0] != comps[2]
    &&& comps[1] != comps[2]
}

/// Tells whether the plane offsets of depth and of the two velocities address
/// three different elements of a cell handle of length `len`.
pub fn face_comps_fit_in(comps: &[usize; NHYDRO], len: usize) -> (ok: bool)
    ensures
        ok == face_comps_fit(*comps, len as int),
{
    comps[0] < len && comps[1] < len && comps[2] < len && comps[0] != comps[1] && comps[0] != comps[2]
        && comps[1] != comps[2]
}

/// Depth, normal velocity and tangential velocity of the cell at which
/// `cell` starts, seen from a face of direction `dir`.
pub open spec fn face_state<T>(cell: Seq<T>, comps: [usize; NHYDRO], dir: usize) -> (T, T, T) {
    (
        cell[comps[0] as int],
        cell[comps[normal_var(dir)] as int],
        cell[comps[tangential_var(dir)] as int],
    )
}

/// Solves the Riemann problem at one face of direction `dir`: reads the left
/// state from `wli` and the right state from `wri`, and writes the flux that
/// `flux` gives for them to `flx`. A direction other than `X1DIR` and
/// `X2DIR` is refused and nothing is written.
pub fn roe_shallow_water<T: Copy, F: Fn((T, T, T), (T, T, T)) -> (T, T, T)>(
    flx: &mut [T],
    wli: &[T],
    wri: &[T],
    dir: usize,
    comps: &[usize; NHYDRO],
    _pos: &[usize],
    flux: &F,
) -> (r: Result<(), InvalidParameter>)
    requires
        face_comps_fit(*comps, old(flx)@.len() as int),
        face_comps_fit(*comps, wli@.len() as int),
        face_comps_fit(*comps, wri@.len() as int),
        dir == X1DIR || dir == X2DIR ==> call_requires(
            *flux,
            (face_state(wli@, *comps, dir), face_state(wri@, *comps, dir)),
        ),
    ensures
        final(flx)@.len() == old(flx)@.len(),
        r is Ok <==> dir == X1DIR || dir == X2DIR,
        r is Err ==> r == Err::<(), InvalidParameter>(InvalidParameter::Direction),
        r is Err ==> final(flx)@ == old(flx)@,
        r is Ok ==> call_ensures(
            *flux,
            (face_state(wli@, *comps, dir), face_state(wri@, *comps, dir)),
            face_state(final(flx)@, *comps, dir),
        ),
        r is Ok ==> forall|k: int|
            0 <= k < old(flx)@.len() && k != comps[0] && k != comps[1] && k != comps[2]
                ==> final(flx)@[k] == old(flx)@[k],
{
    let idn = comps[0];
    let iv1 = comps[1];
    let iv2 = comps[2];

    let (ivx, ivy) = if dir == X1DIR {
        (iv1, iv2)
    } else if dir == X2DIR {
        (iv2, iv1)
    } else {
        return Err(InvalidParameter::Direction);
    };

    let left = (wli[idn], wli[ivx], wli[ivy]);
    let right = (wri[idn], wri[ivx], wri[ivy]);
    let (mass, normal, tangential) = flux(left, right);

    set_comp(flx, idn, mass);
    set_comp(flx, ivx, normal);
    set_comp(flx, ivy, tangential);
    Ok(())
}

} // verus!
