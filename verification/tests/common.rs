use fv::utils::common::{add_comp, load_state, set_comp, store_state};
use fv::utils::defs::{InvalidParameter, DIMENSION, NGHOST, NHYDRO, NVAPOR, X1DIR, X2DIR, X3DIR};

#[test]
fn set_comp_writes_one_component() {
    let mut cell = vec![1, 2, 3, 4];
    set_comp(&mut cell[1..], 2, 9);
    assert_eq!(cell, vec![1, 2, 3, 9]);
}

#[test]
fn add_comp_adds_to_one_component() {
    let mut cell = vec![1.5, 2.0, 3.0];
    add_comp(&mut cell, 1, 0.25);
    add_comp(&mut cell, 1, -1.0);
    assert_eq!(cell, vec![1.5, 1.25, 3.0]);
}

#[test]
fn load_and_store_state() {
    let comps = [0, 3, 6, 9, 12];
    let mut cells: Vec<usize> = (0..15).collect();
    assert_eq!(load_state(&cells[1..], &comps), (1, 4, 7, 10, 13));
    store_state(&mut cells[2..], &comps, (100, 101, 102, 103, 104));
    assert_eq!(
        cells,
        vec![0, 1, 100, 3, 4, 101, 6, 7, 102, 9, 10, 103, 12, 13, 104]
    );
}

#[test]
fn solver_parameters() {
    assert_eq!(DIMENSION, 2);
    assert_eq!(NGHOST, 3);
    assert_eq!(NHYDRO, 5);
    assert_eq!(NVAPOR, 0);
    assert_eq!((X1DIR, X2DIR, X3DIR), (0, 1, 2));
    assert_ne!(InvalidParameter::Order, InvalidParameter::Direction);
}
