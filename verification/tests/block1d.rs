use fv::block::block1d::Block1D;
use fv::utils::common::set_comp;

#[test]
fn test_data_block_1d_new() {
    let block = Block1D::<f32>::new(3, 4, 1);
    assert_eq!(block.nvar, 3);
    assert_eq!(block.len1, 6);
    assert_eq!(block.nghost, 1);
    assert_eq!(block.data.len(), 18);
}

#[test]
fn test_data_block_1d_size() {
    let block = Block1D::<f32>::new(3, 4, 1);
    assert_eq!(block.size(), 18);
}

#[test]
fn test_data_block_1d_shape() {
    let block = Block1D::<f32>::new(3, 4, 1);
    assert_eq!(block.shape(), (3, 6));
}

#[test]
fn test_data_block_1d_interior() {
    let mut block = Block1D::new(3, 4, 1);

    for i in 0..block.size() {
        block.data[i] = i;
    }

    let mut interior = block.interior();

    let iv0 = block.icomp(0);
    let iv1 = block.icomp(1);
    let iv2 = block.icomp(2);

    let mut i = 0;
    while let Some(var) = interior.next() {
        assert_eq!(var[iv0], i + 1);
        assert_eq!(var[iv1], i + 1 + 6);
        assert_eq!(var[iv2], i + 1 + 12);
        i += 1;
    }
    assert_eq!(i, 4);
}

#[test]
fn test_interior_mut() {
    let mut block = Block1D::new(2, 4, 1);

    block.data = vec![0, 1, 2, 3, 4, 0, 0, 7, 8, 9, 10, 0];

    let iv1 = block.icomp(1);

    let mut interior = block.interior_mut();
    while let Some(x) = interior.next() {
        set_comp(x, 0, 1);
        set_comp(x, iv1, 2);
    }

    assert_eq!(block.data, vec![0, 1, 1, 1, 1, 0, 0, 2, 2, 2, 2, 0]);
}

#[test]
fn block_1d_starts_with_default_values() {
    let block = Block1D::<i64>::new(2, 3, 2);
    assert_eq!(block.data, vec![0i64; 14]);
    assert_eq!(block.icomp(1), 7);
}

#[test]
fn block_1d_without_active_cells_yields_nothing() {
    let block = Block1D::<u8>::new(2, 0, 2);
    let mut interior = block.interior();
    assert!(interior.next().is_none());
    assert!(interior.next().is_none());
}

#[test]
fn block_1d_view_stays_exhausted() {
    let mut block = Block1D::<u8>::new(1, 2, 1);
    let mut interior = block.interior_mut();
    assert!(interior.next().is_some());
    assert!(interior.next().is_some());
    assert!(interior.next().is_none());
    assert!(interior.next().is_none());
    assert_eq!(interior.current, 3);
}

#[test]
fn block_1d_consistency_is_told_apart() {
    let mut block = Block1D::<u8>::new(2, 3, 1);
    assert!(block.is_wf());
    block.nvar = 3;
    assert!(!block.is_wf());
    assert!(Block1D::<u8>::fits(3, 4, 1));
    assert!(!Block1D::<u8>::fits(3, usize::MAX, 1));
    assert!(!Block1D::<u8>::fits(2, usize::MAX - 2, 1));
}
