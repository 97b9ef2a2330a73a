//! Component access through a cell handle.
//!
//! A cell handle is the tail of a block's buffer that starts at the cell;
//! adding a plane offset to its start reaches one variable of that cell.
use vstd::prelude::*;
use crate::utils::defs::NHYDRO;

verus! {

/// Writes `val` to component offset `n` of the cell at which `var` starts.
pub fn set_comp<T: Copy>(var: &mut [T], n: usize, val: T)
    requires
        n < old(var)@.len(),
    ensures
        final(var)@ == old(var)@.update(n as int, val),
{
    var[n] = val;
}

/// Adds `val` to component offset `n` of the cell at which `var` starts.
pub fn add_comp<T: Copy + core::ops::Add<Output = T>>(var: &mut [T], n: usize, val: T)
    requires
        n < old(var)@.len(),
        call_requires(T::add, (old(var)@[n as int], val)),
    ensures
        final(var)@.len() == old(var)@.len(),
        call_ensures(T::add, (old(var)@[n as int], val), final(var)@[n as int]),
        forall|k: int| 0 <= k < old(var)@.len() && k != n ==> final(var)@[k] == old(var)@[k],
{
    let sum = var[n] + val;
    var[n] = sum;
}

/// The five plane offsets address five different elements of a cell handle
/// of length `len`.
pub open spec fn comps_fit(comps: [usize; NHYDRO], len: int) -> bool {
    &&& forall|n: int| 0 <= n < NHYDRO ==> (#[trigger] comps[n]) < len
    &&& forall|n: int, m: int| 0 <= n < m < NHYDRO ==> comps[n] != comps[m]
}

/// The five variables of the cell that starts at index `start` of `data`.
pub open spec fn state_from<T>(data: Seq<T>, start: int, comps: [usize; NHYDRO]) -> (T, T, T, T, T) {
    (
        data[start + comps[0]],
        data[start + comps[1]],
        data[start + comps[2]],
        data[start + comps[3]],
        data[start + comps[4]],
    )
}

/// The five variables of the cell at which `cell` starts.
pub open spec fn state_of<T>(cell: Seq<T>, comps: [usize; NHYDRO]) -> (T, T, T, T, T) {
    state_from(cell, 0, comps)
}

/// Reads the five variables of the cell at which `cell` starts.
pub fn load_state<T: Copy>(cell: &[T], comps: &[usize; NHYDRO]) -> (r: (T, T, T, T, T))
    requires
        comps_fit(*comps, cell@.len() as int),
    ensures
        r == state_of(cell@, *comps),
{
    (cell[comps[0]], cell[comps[1]], cell[comps[2]], cell[comps[3]], cell[comps[4]])
}

/// Writes the five variables of the cell at which `cell` starts; every other
/// element keeps its value.
pub fn store_state<T: Copy>(cell: &mut [T], comps: &[usize; NHYDRO], state: (T, T, T, T, T))
    requires
        comps_fit(*comps, old(cell)@.len() as int),
    ensures
        final(cell)@.len() == old(cell)@.len(),
        state_of(final(cell)@, *comps) == state,
        forall|k: int|
            0 <= k < old(cell)@.len() && k != comps[0] && k != comps[1] && k != comps[2] && k
                != comps[3] && k != comps[4] ==> final(cell)@[k] == old(cell)@[k],
{
    set_comp(cell, comps[0], state.0);
    set_comp(cell, comps[1], state.1);
    set_comp(cell, comps[2], state.2);
    set_comp(cell, comps[3], state.3);
    set_comp(cell, comps[4], state.4);
}

} // verus!
