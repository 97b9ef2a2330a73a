use fv::block::block2d::Block2D;
use fv::utils::common::set_comp;

fn filled(nvar: usize, dim2: usize, dim1: usize, nghost: usize) -> Block2D<usize> {
    let mut w = Block2D::new(nvar, dim2, dim1, nghost);
    for i in 0..w.size() {
        w.data[i] = i;
    }
    w
}

#[test]
fn test_data_block_2d_new() {
    let nvar = 4;
    let dim2 = 10;
    let dim1 = 20;
    let nghost = 2;
    let w = Block2D::<f64>::new(nvar, dim2, dim1, nghost);

    assert_eq!(w.nvar, nvar);
    assert_eq!(w.len2, dim2 + 2 * nghost);
    assert_eq!(w.len1, dim1 + 2 * nghost);
    assert_eq!(w.nghost, nghost);
}

#[test]
fn test_data_block_2d_get() {
    let nvar = 4;
    let dim2 = 10;
    let dim1 = 20;
    let nghost = 2;
    let mut w = Block2D::<f64>::new(nvar, dim2, dim1, nghost);

    for i in 0..w.size() {
        w.data[i] = i as f64;
    }

    assert!((w.get(0, 0, 0) - 50.0).abs() <= f64::EPSILON);
}

#[test]
fn test_data_block_2d_set() {
    let nvar = 4;
    let dim2 = 10;
    let dim1 = 20;
    let nghost = 2;
    let mut w = Block2D::<f64>::new(nvar, dim2, dim1, nghost);

    for i in 0..w.size() {
        w.data[i] = i as f64;
    }

    *w.set(0, 0, 0) = 100.0;

    assert!((w.get(0, 0, 0) - 100.0).abs() <= f64::EPSILON);
    assert!((w.data[50] - 100.0).abs() <= f64::EPSILON);
}

#[test]
fn test_data_block_2d_interior() {
    let w = filled(2, 3, 3, 1);

    let mut interior_points: Vec<&[usize]> = Vec::new();
    let mut it = w.interior();
    while let Some(x) = it.next() {
        interior_points.push(x);
    }

    let iv0 = w.icomp(0);
    let iv1 = w.icomp(1);

    assert_eq!(interior_points.len(), 9);
    assert_eq!(interior_points[0][iv0], 6);
    assert_eq!(interior_points[0][iv1], 31);
    assert_eq!(interior_points[1][iv0], 7);
    assert_eq!(interior_points[1][iv1], 32);
}

#[test]
fn test_data_block_2d_interior_mut() {
    let mut w = filled(2, 3, 3, 1);

    let mut it = w.interior_mut();
    let first = it.next().unwrap();
    set_comp(first, 0, 100);
    assert_eq!(first[0], 100);
}

#[test]
fn test_data_block_2d_all() {
    let w = filled(2, 3, 3, 1);

    let mut all_points: Vec<&[usize]> = Vec::new();
    let mut it = w.all();
    while let Some(x) = it.next() {
        all_points.push(x);
    }

    let iv0 = w.icomp(0);
    let iv1 = w.icomp(1);

    assert_eq!(all_points.len(), 25);
    assert_eq!(all_points[0][iv0], 0);
    assert_eq!(all_points[0][iv1], 25);
    assert_eq!(all_points[1][iv0], 1);
    assert_eq!(all_points[1][iv1], 26);
}

#[test]
fn test_data_block_2d_all_mut() {
    let mut w = filled(2, 3, 3, 1);

    let mut it = w.all_mut();
    let first = it.next().unwrap();
    set_comp(first, 0, 100);
    assert_eq!(first[0], 100);
}

#[test]
fn test_interior_x1_iterator() {
    let data_block = filled(2, 3, 3, 1);

    let mut interior_points_x1: Vec<usize> = Vec::new();
    let mut it = data_block.interior_x1(0);
    while let Some(x) = it.next() {
        interior_points_x1.push(x[0]);
    }

    let expected_interior_points_x1 =
        vec![5, 6, 7, 8, 9, 10, 11, 12, 13, 14, 15, 16, 17, 18, 19];

    assert_eq!(interior_points_x1, expected_interior_points_x1);
}

#[test]
fn test_interior_x2_iterator() {
    let data_block = filled(2, 3, 3, 1);

    let iv1 = data_block.icomp(1);
    let mut interior_points_x2: Vec<usize> = Vec::new();
    let mut it = data_block.interior_x2(0);
    while let Some(x) = it.next() {
        interior_points_x2.push(x[iv1]);
    }

    let expected_interior_points_x2 =
        vec![26, 27, 28, 31, 32, 33, 36, 37, 38, 41, 42, 43, 46, 47, 48];

    assert_eq!(interior_points_x2, expected_interior_points_x2);
}

fn count(mut it: fv::block::iterator2d::Iterator2D<'_, usize>) -> usize {
    let mut n = 0;
    while it.next().is_some() {
        n += 1;
    }
    n
}

#[test]
fn block_2d_starts_with_default_values() {
    let w = Block2D::<i32>::new(2, 1, 2, 1);
    assert_eq!(w.len12, 12);
    assert_eq!(w.size(), 24);
    assert_eq!(w.shape(), (2, 3, 4));
    assert_eq!(w.data, vec![0i32; 24]);
}

#[test]
fn icomp_is_plane_offset() {
    let w = Block2D::<usize>::new(4, 10, 20, 2);
    for n in 0..4 {
        assert_eq!(w.icomp(n), n * w.len1 * w.len2);
    }
    assert_eq!(w.icomp(3), 3 * 24 * 14);
}

#[test]
fn view_cardinalities() {
    let w = filled(2, 4, 7, 2);
    assert_eq!(count(w.interior()), 7 * 4);
    assert_eq!(count(w.interior_f1()), (7 + 1) * 4);
    assert_eq!(count(w.interior_f2()), 7 * (4 + 1));
    assert_eq!(count(w.all()), 11 * 8);
    assert_eq!(count(w.interior_x1(-1)), (7 + 2) * 4);
    assert_eq!(count(w.interior_x2(1)), 7 * (4 + 2));
}

#[test]
fn views_without_active_columns_yield_nothing() {
    let w = filled(1, 3, 0, 1);
    assert_eq!(count(w.interior()), 0);
    assert_eq!(count(w.interior_f2()), 0);
    assert_eq!(count(w.interior_f1()), 3);
    assert_eq!(count(w.all()), 2 * 5);
}

#[test]
fn views_without_active_rows_yield_nothing() {
    let w = filled(1, 0, 3, 1);
    assert_eq!(count(w.interior()), 0);
    assert_eq!(count(w.interior_f1()), 0);
    assert_eq!(count(w.interior_f2()), 3);
}

#[test]
fn view_stays_exhausted() {
    let w = filled(1, 1, 1, 1);
    let mut it = w.interior();
    assert_eq!(it.next().unwrap()[0], 4);
    assert!(it.next().is_none());
    assert!(it.next().is_none());
    assert_eq!((it.current2, it.current1), (1, 2));
}

#[test]
fn get_set_round_trip_with_ghost_coordinates() {
    let nvar = 3;
    let dim2 = 2;
    let dim1 = 4;
    let nghost = 2;
    let mut w = Block2D::<i64>::new(nvar, dim2, dim1, nghost);
    let mut stamp = 1;
    for n in 0..nvar {
        for j in -2..(dim2 as i32 + 2) {
            for i in -2..(dim1 as i32 + 2) {
                *w.set(n, j, i) = stamp;
                stamp += 1;
            }
        }
    }
    let mut expected = 1;
    for n in 0..nvar {
        for j in -2..(dim2 as i32 + 2) {
            for i in -2..(dim1 as i32 + 2) {
                assert_eq!(w.get(n, j, i), expected);
                expected += 1;
            }
        }
    }
    let sequential: Vec<i64> = (1..=(nvar * 6 * 8) as i64).collect();
    assert_eq!(w.data, sequential);
}

#[test]
fn set_changes_one_element() {
    let mut w = filled(2, 3, 3, 1);
    *w.set(1, -1, 2) = 1000;
    for k in 0..w.size() {
        let expected = if k == 25 + 3 { 1000 } else { k };
        assert_eq!(w.data[k], expected);
    }
    assert_eq!(w.get(1, -1, 2), 1000);
}

#[test]
fn at_is_tail_from_cell() {
    let w = filled(2, 3, 3, 1);
    let tail = w.at(0, 0);
    assert_eq!(tail.len(), 50 - 6);
    assert_eq!(tail[0], 6);
    assert_eq!(tail[w.icomp(1)], 31);
    let corner = w.at(-1, -1);
    assert_eq!(corner.len(), 50);
    assert_eq!(w.at(3, 3)[0], 24);
}

#[test]
fn shifted_windows_are_shifted() {
    let w = filled(1, 2, 3, 3);
    let mut centre = w.interior_x1(0);
    let mut left = w.interior_x1(-2);
    let mut right = w.interior_x1(2);
    let mut steps = 0;
    while let Some(c) = centre.next() {
        let l = left.next().unwrap();
        let r = right.next().unwrap();
        assert_eq!(l[0] + 2, c[0]);
        assert_eq!(r[0], c[0] + 2);
        steps += 1;
    }
    assert_eq!(steps, 5 * 2);
    assert!(left.next().is_none());
    assert!(right.next().is_none());

    let mut centre = w.interior_x2(0);
    let mut up = w.interior_x2(-2);
    let mut down = w.interior_x2(2);
    let mut steps = 0;
    while let Some(c) = centre.next() {
        let u = up.next().unwrap();
        let d = down.next().unwrap();
        assert_eq!(u[0] + 2 * 9, c[0]);
        assert_eq!(d[0], c[0] + 2 * 9);
        steps += 1;
    }
    assert_eq!(steps, 3 * 4);
}

#[test]
fn exclusive_views_visit_the_same_cells() {
    let mut w = filled(2, 2, 3, 1);
    let mut seen = Vec::new();
    {
        let mut it = w.interior_f1_mut();
        while let Some(cell) = it.next() {
            seen.push(cell[0]);
            set_comp(cell, 0, 0);
        }
    }
    assert_eq!(seen, vec![6, 7, 8, 9, 11, 12, 13, 14]);
    let mut seen = Vec::new();
    {
        let mut it = w.interior_f2_mut();
        while let Some(cell) = it.next() {
            seen.push(cell[20]);
        }
    }
    assert_eq!(seen, vec![26, 27, 28, 31, 32, 33, 36, 37, 38]);
    let mut it = w.interior_x1_mut(0);
    let mut n = 0;
    while it.next().is_some() {
        n += 1;
    }
    assert_eq!(n, 10);
    let mut it = w.interior_x2_mut(0);
    let mut n = 0;
    while it.next().is_some() {
        n += 1;
    }
    assert_eq!(n, 12);
}

#[test]
fn checked_access_reports_indices_outside_the_block() {
    let mut w = filled(2, 3, 3, 1);
    assert_eq!(w.try_get(1, -1, -1), Some(25));
    assert_eq!(w.try_get(0, 3, 3), Some(24));
    assert_eq!(w.try_get(2, 0, 0), None);
    assert_eq!(w.try_get(0, -2, 0), None);
    assert_eq!(w.try_get(0, 0, 4), None);
    assert_eq!(w.try_get(0, i32::MIN, i32::MAX), None);
    assert!(w.try_set(1, 0, 0, 77));
    assert_eq!(w.data[31], 77);
    assert!(!w.try_set(0, 4, 0, 78));
    assert!(!w.try_set(5, 0, 0, 78));
    assert!(w.data.iter().all(|x| *x != 78));
    assert!(w.holds(1, 3, -1));
    assert!(!w.holds(1, 3, -2));
}

#[test]
fn consistency_is_told_apart() {
    let mut w = filled(2, 3, 3, 1);
    assert!(w.is_wf());
    assert!(w.is_same_shape(&Block2D::<usize>::new(2, 3, 3, 1)));
    assert!(!w.is_same_shape(&Block2D::<usize>::new(2, 3, 3, 2)));
    w.data.pop();
    assert!(!w.is_wf());
    w.data.push(0);
    w.len12 = 24;
    assert!(!w.is_wf());
    w.len12 = 25;
    w.nghost = 3;
    assert!(!w.is_wf());
    assert!(Block2D::<usize>::fits(5, 100, 100, 3));
    assert!(!Block2D::<usize>::fits(5, usize::MAX, 1, 0));
    assert!(Block2D::<usize>::fits(2, usize::MAX / 2, 1, 0));
    assert!(!Block2D::<usize>::fits(3, usize::MAX / 2, 1, 0));
    assert!(!Block2D::<usize>::fits(1, 1, 1, usize::MAX / 2 + 1));
    assert!(Block2D::<usize>::fits(0, 0, 0, 0));
}
