use fv::eos::eos::EquationOfState;
use fv::hydro::hydro::Hydro;
use fv::hydro::hydro_reconstruct::{reconstruct_cell, window_along};
use fv::hydro::hydro_riemann::{faces_along, solve_faces};
use fv::riemann::roe_shallow_water::{face_comps_fit_in, roe_shallow_water};
use fv::utils::defs::{InvalidParameter, NGHOST, NHYDRO, X1DIR, X2DIR, X3DIR};

type Real = f64;

fn interp_weno3(phim1: f64, phi: f64, phip1: f64) -> f64 {
    let poly0 = (1.0 / 2.0) * phi + (1.0 / 2.0) * phim1;
    let poly1 = (-1.0 / 2.0) * phip1 + (3.0 / 2.0) * phi;

    let beta0 = (phim1 - phi).powi(2);
    let beta1 = (phi - phip1).powi(2);

    let alpha0 = (1.0 / 3.0) / ((beta0 + 1e-10) * (beta0 + 1.0e-10));
    let alpha1 = (2.0 / 3.0) / ((beta1 + 1e-10) * (beta1 + 1.0e-10));

    let alpha_sum_inv = 1.0 / (alpha0 + alpha1);

    let w0 = alpha0 * alpha_sum_inv;
    let w1 = alpha1 * alpha_sum_inv;

    w0 * poly0 + w1 * poly1
}

fn interp_weno5(phim2: f64, phim1: f64, phi: f64, phip1: f64, phip2: f64) -> f64 {
    let poly0 = (1.0 / 3.0) * phi + (5.0 / 6.0) * phim1 - (1.0 / 6.0) * phim2;
    let poly1 = (-1.0 / 6.0) * phip1 + (5.0 / 6.0) * phi + (1.0 / 3.0) * phim1;
    let poly2 = (1.0 / 3.0) * phip2 - (7.0 / 6.0) * phip1 + (11.0 / 6.0) * phi;

    let beta0 = 13.0 / 12.0 * (phi - 2.0 * phim1 + phim2).powi(2)
        + 0.25 * (3.0 * phi - 4.0 * phim1 + phim2).powi(2);
    let beta1 = 13.0 / 12.0 * (phip1 - 2.0 * phi + phim1).powi(2)
        + 0.25 * (phip1 - phim1).powi(2);
    let beta2 = 13.0 / 12.0 * (phip2 - 2.0 * phip1 + phi).powi(2)
        + 0.25 * (phip2 - 4.0 * phip1 + 3.0 * phi).powi(2);

    let alpha0 = 0.3 / (beta0 + 1e-10).powi(2);
    let alpha1 = 0.6 / (beta1 + 1e-10).powi(2);
    let alpha2 = 0.1 / (beta2 + 1e-10).powi(2);

    (alpha0 * poly0 + alpha1 * poly1 + alpha2 * poly2) / (alpha0 + alpha1 + alpha2)
}

fn roe_flux(left: (Real, Real, Real), right: (Real, Real, Real)) -> (Real, Real, Real) {
    let (hl, ul, vl) = left;
    let (hr, ur, vr) = right;
    let ubar = (ul * hl.sqrt() + ur * hr.sqrt()) / (hl.sqrt() + hr.sqrt());
    let vbar = (vl * hl.sqrt() + vr * hr.sqrt()) / (hl.sqrt() + hr.sqrt());
    let cbar = (0.5 * (hl + hr)).sqrt();

    let delh = hr - hl;
    let delu = ur - ul;
    let delv = vr - vl;
    let hbar = (hl * hr).sqrt();

    let a1 = 0.5 * (cbar * delh - hbar * delu) / cbar;
    let a2 = hbar * delv;
    let a3 = 0.5 * (cbar * delh + hbar * delu) / cbar;

    let wave = [
        [a1, a1 * (ubar - cbar), a1 * vbar],
        [0.0, 0.0, a2],
        [a3, a3 * (ubar + cbar), a3 * vbar],
    ];
    let speed = [(ubar - cbar).abs(), ubar.abs(), (ubar + cbar).abs()];

    let mut mass = 0.5 * (hl * ul + hr * ur);
    let mut normal = 0.5 * (hl * ul.powi(2) + 0.5 * hl.powi(2) + hr * ur.powi(2) + 0.5 * hr.powi(2));
    let mut tangential = 0.5 * (hl * ul * vl + hr * ur * vr);
    for r in 0..3 {
        mass += -0.5 * speed[r] * wave[r][0];
        normal += -0.5 * speed[r] * wave[r][1];
        tangential += -0.5 * speed[r] * wave[r][2];
    }
    (mass, normal, tangential)
}

fn close(a: Real, b: Real) -> bool {
    (a - b).abs() <= f64::EPSILON
}

fn sequential(dim2: usize, dim1: usize) -> EquationOfState<Real> {
    let mut eos = EquationOfState::new(dim2, dim1);
    for i in 0..eos.w.size() {
        eos.w.data[i] = i as Real;
    }
    eos
}

#[test]
fn hydro_new() {
    let dim2 = 5;
    let dim1 = 7;
    let hydro = Hydro::<Real>::new(dim2, dim1);

    for wl in hydro.wls.iter() {
        assert_eq!(wl.nvar, NHYDRO);
        assert_eq!(wl.len1, dim1 + 2 * NGHOST);
        assert_eq!(wl.len2, dim2 + 2 * NGHOST);
        assert_eq!(wl.nghost, NGHOST);
    }

    for wr in hydro.wrs.iter() {
        assert_eq!(wr.nvar, NHYDRO);
        assert_eq!(wr.len1, dim1 + 2 * NGHOST);
        assert_eq!(wr.len2, dim2 + 2 * NGHOST);
        assert_eq!(wr.nghost, NGHOST);
    }
}

#[test]
fn hydro_new_flux_blocks_and_offsets() {
    let hydro = Hydro::<Real>::new(5, 7);
    let len12 = 11 * 13;
    assert_eq!(hydro.comps, [0, len12, 2 * len12, 3 * len12, 4 * len12]);
    for flx in hydro.flx.iter() {
        assert_eq!(flx.shape(), (NHYDRO, 11, 13));
        assert_eq!(flx.nghost, NGHOST);
        assert!(flx.data.iter().all(|x| *x == 0.0));
    }
    assert_eq!(Hydro::<Real>::X1DIR, X1DIR);
    assert_eq!(Hydro::<Real>::X2DIR, X2DIR);
    assert_eq!(Hydro::<Real>::X3DIR, X3DIR);
}

#[test]
fn reconstruct_x1() {
    let dim2 = 5;
    let dim1 = 7;
    let mut hydro = Hydro::new(dim2, dim1);
    let eos = sequential(dim2, dim1);

    hydro.reconstruct_x1(&eos, 5, interp_weno3, interp_weno5).unwrap();

    for n in 0..NHYDRO {
        for j in 0..dim2 as i32 {
            for i in 0..=dim1 as i32 {
                let wl = hydro.wls[X1DIR].get(n, j, i);
                let wr = hydro.wrs[X1DIR].get(n, j, i);

                let wm3 = eos.w.get(n, j, i - 3);
                let wm2 = eos.w.get(n, j, i - 2);
                let wm1 = eos.w.get(n, j, i - 1);
                let w = eos.w.get(n, j, i);
                let wp1 = eos.w.get(n, j, i + 1);
                let wp2 = eos.w.get(n, j, i + 2);

                let expected_wl = interp_weno5(wp1, w, wm1, wm2, wm3);
                let expected_wr = interp_weno5(wm2, wm1, w, wp1, wp2);

                assert!(close(wl, expected_wl));
                assert!(close(wr, expected_wr));
            }
        }
    }

    hydro.reconstruct_x1(&eos, 3, interp_weno3, interp_weno5).unwrap();

    for n in 0..NHYDRO {
        for j in 0..dim2 as i32 {
            for i in 0..=dim1 as i32 {
                let wl = hydro.wls[X1DIR].get(n, j, i);
                let wr = hydro.wrs[X1DIR].get(n, j, i);

                let wm2 = eos.w.get(n, j, i - 2);
                let wm1 = eos.w.get(n, j, i - 1);
                let w = eos.w.get(n, j, i);
                let wp1 = eos.w.get(n, j, i + 1);

                let expected_wl = interp_weno3(w, wm1, wm2);
                let expected_wr = interp_weno3(wm1, w, wp1);

                assert!(close(wl, expected_wl));
                assert!(close(wr, expected_wr));
            }
        }
    }
}

#[test]
fn reconstruct_x2() {
    let dim2 = 5;
    let dim1 = 7;
    let mut hydro = Hydro::new(dim2, dim1);
    let eos = sequential(dim2, dim1);

    hydro.reconstruct_x2(&eos, 5, interp_weno3, interp_weno5).unwrap();

    for n in 0..NHYDRO {
        for j in 0..=dim2 as i32 {
            for i in 0..dim1 as i32 {
                let wl = hydro.wls[X2DIR].get(n, j, i);
                let wr = hydro.wrs[X2DIR].get(n, j, i);

                let wm3 = eos.w.get(n, j - 3, i);
                let wm2 = eos.w.get(n, j - 2, i);
                let wm1 = eos.w.get(n, j - 1, i);
                let w = eos.w.get(n, j, i);
                let wp1 = eos.w.get(n, j + 1, i);
                let wp2 = eos.w.get(n, j + 2, i);

                let expected_wl = interp_weno5(wp1, w, wm1, wm2, wm3);
                let expected_wr = interp_weno5(wm2, wm1, w, wp1, wp2);

                assert!(close(wl, expected_wl));
                assert!(close(wr, expected_wr));
            }
        }
    }

    hydro.reconstruct_x2(&eos, 3, interp_weno3, interp_weno5).unwrap();

    for n in 0..NHYDRO {
        for j in 0..=dim2 as i32 {
            for i in 0..dim1 as i32 {
                let wl = hydro.wls[X2DIR].get(n, j, i);
                let wr = hydro.wrs[X2DIR].get(n, j, i);

                let wm2 = eos.w.get(n, j - 2, i);
                let wm1 = eos.w.get(n, j - 1, i);
                let w = eos.w.get(n, j, i);
                let wp1 = eos.w.get(n, j + 1, i);

                let expected_wl = interp_weno3(w, wm1, wm2);
                let expected_wr = interp_weno3(wm1, w, wp1);

                assert!(close(wl, expected_wl));
                assert!(close(wr, expected_wr));
            }
        }
    }
}

#[test]
fn order_one_copies_cell_values() {
    let dim2 = 2;
    let dim1 = 3;
    let mut hydro = Hydro::new(dim2, dim1);
    let eos = sequential(dim2, dim1);

    hydro.reconstruct_x1(&eos, 1, interp_weno3, interp_weno5).unwrap();
    for n in 0..NHYDRO {
        for j in 0..dim2 as i32 {
            for i in -1..=dim1 as i32 {
                let w = eos.w.get(n, j, i);
                assert_eq!(hydro.wls[X1DIR].get(n, j, i + 1), w);
                assert_eq!(hydro.wrs[X1DIR].get(n, j, i), w);
            }
        }
    }
    assert!(hydro.wls[X2DIR].data.iter().all(|x| *x == 0.0));
    assert!(hydro.wrs[X2DIR].data.iter().all(|x| *x == 0.0));

    hydro.reconstruct_x2(&eos, 1, interp_weno3, interp_weno5).unwrap();
    for n in 0..NHYDRO {
        for j in -1..=dim2 as i32 {
            for i in 0..dim1 as i32 {
                let w = eos.w.get(n, j, i);
                assert_eq!(hydro.wls[X2DIR].get(n, j + 1, i), w);
                assert_eq!(hydro.wrs[X2DIR].get(n, j, i), w);
            }
        }
    }
}

#[test]
fn reconstruction_leaves_other_cells_alone() {
    let dim2 = 2;
    let dim1 = 3;
    let mut hydro = Hydro::new(dim2, dim1);
    for k in 0..hydro.wls[X1DIR].size() {
        hydro.wls[X1DIR].data[k] = -7.0;
        hydro.wrs[X1DIR].data[k] = -7.0;
    }
    let eos = sequential(dim2, dim1);
    hydro.reconstruct_x1(&eos, 1, interp_weno3, interp_weno5).unwrap();
    for n in 0..NHYDRO {
        for j in -3..(dim2 as i32 + 3) {
            for i in -3..(dim1 as i32 + 3) {
                let rows = 0 <= j && j < dim2 as i32;
                let in_right = rows && -1 <= i && i <= dim1 as i32;
                let in_left = rows && 0 <= i && i <= dim1 as i32 + 1;
                if !in_right {
                    assert_eq!(hydro.wrs[X1DIR].get(n, j, i), -7.0);
                }
                if !in_left {
                    assert_eq!(hydro.wls[X1DIR].get(n, j, i), -7.0);
                }
            }
        }
    }
    assert!(hydro.flx[X1DIR].data.iter().all(|x| *x == 0.0));
}

#[test]
fn invalid_order_is_refused() {
    let mut hydro = Hydro::new(2, 2);
    let eos = sequential(2, 2);
    for order in [0, 2, 4, 6, 7] {
        assert_eq!(
            hydro.reconstruct_x1(&eos, order, interp_weno3, interp_weno5),
            Err(InvalidParameter::Order)
        );
        assert_eq!(
            hydro.reconstruct_x2(&eos, order, interp_weno3, interp_weno5),
            Err(InvalidParameter::Order)
        );
    }
    assert!(hydro.wls[X1DIR].data.iter().all(|x| *x == 0.0));
    assert!(hydro.wrs[X2DIR].data.iter().all(|x| *x == 0.0));
}

#[test]
fn invalid_direction_is_refused() {
    let mut hydro = Hydro::<Real>::new(2, 2);
    let eos = sequential(2, 2);
    let Hydro { comps, wls, wrs, .. } = &mut hydro;
    let (left, _) = wls.split_at_mut(1);
    let (right, _) = wrs.split_at_mut(1);
    let r = fv::hydro::hydro_reconstruct::reconstruct(
        &mut left[0],
        &mut right[0],
        &eos.w,
        comps,
        X3DIR,
        5,
        &interp_weno3,
        &interp_weno5,
    );
    assert_eq!(r, Err(InvalidParameter::Direction));
    let r = fv::hydro::hydro_reconstruct::reconstruct(
        &mut left[0],
        &mut right[0],
        &eos.w,
        comps,
        X3DIR,
        4,
        &interp_weno3,
        &interp_weno5,
    );
    assert_eq!(r, Err(InvalidParameter::Direction));
    assert!(left[0].data.iter().all(|x| *x == 0.0));
}

#[test]
fn weno3_uniform_and_ramp() {
    assert_eq!(interp_weno3(4.0, 4.0, 4.0), 4.0);
    assert!(close(interp_weno3(1.0, 2.0, 3.0), 1.5));

    let mut hydro = Hydro::new(1, 2);
    let mut eos = EquationOfState::<Real>::new(1, 2);
    eos.w.data.fill(4.0);
    hydro.reconstruct_x1(&eos, 3, interp_weno3, interp_weno5).unwrap();
    for i in 0..=2 {
        assert_eq!(hydro.wls[X1DIR].get(0, 0, i), 4.0);
        assert_eq!(hydro.wrs[X1DIR].get(0, 0, i), 4.0);
    }
}

#[test]
fn weno5_linear() {
    let result = interp_weno5(1.0, 2.0, 3.0, 4.0, 5.0);
    assert!((result - 2.5).abs() <= 1e-12);
    assert!(close(result, 2.5000000000000004));

    let mut hydro = Hydro::new(1, 1);
    let mut eos = EquationOfState::<Real>::new(1, 1);
    let len1 = eos.w.len1;
    for k in 0..eos.w.size() {
        eos.w.data[k] = (k % len1) as Real - 2.0;
    }
    hydro.reconstruct_x1(&eos, 5, interp_weno3, interp_weno5).unwrap();
    let right = hydro.wrs[X1DIR].get(0, 0, 0);
    assert!((right - 0.5).abs() <= 1e-12);
    let left = hydro.wls[X1DIR].get(0, 0, 1);
    assert!((left - 1.5).abs() <= 1e-12);
}

#[test]
fn riemann_solver_x1_fills_fluxes() {
    let dim2 = 2;
    let dim1 = 3;
    let mut hydro = Hydro::<Real>::new(dim2, dim1);
    for k in 0..hydro.wls[X1DIR].size() {
        hydro.wls[X1DIR].data[k] = 1.0 + 0.001 * k as Real;
        hydro.wrs[X1DIR].data[k] = 2.0 - 0.001 * k as Real;
        hydro.flx[X1DIR].data[k] = -5.0;
    }
    hydro.riemann_solver_x1(roe_flux);
    for j in -3..(dim2 as i32 + 3) {
        for i in -3..(dim1 as i32 + 3) {
            let face = 0 <= j && j < dim2 as i32 && 0 <= i && i <= dim1 as i32;
            if face {
                let wl = &hydro.wls[X1DIR];
                let wr = &hydro.wrs[X1DIR];
                let expected = roe_flux(
                    (wl.get(0, j, i), wl.get(1, j, i), wl.get(2, j, i)),
                    (wr.get(0, j, i), wr.get(1, j, i), wr.get(2, j, i)),
                );
                assert_eq!(hydro.flx[X1DIR].get(0, j, i), expected.0);
                assert_eq!(hydro.flx[X1DIR].get(1, j, i), expected.1);
                assert_eq!(hydro.flx[X1DIR].get(2, j, i), expected.2);
            } else {
                for n in 0..3 {
                    assert_eq!(hydro.flx[X1DIR].get(n, j, i), -5.0);
                }
            }
            assert_eq!(hydro.flx[X1DIR].get(3, j, i), -5.0);
            assert_eq!(hydro.flx[X1DIR].get(4, j, i), -5.0);
        }
    }
    assert!(hydro.flx[X2DIR].data.iter().all(|x| *x == 0.0));
}

#[test]
fn roe_flux_of_equal_states_is_physical_flux() {
    let (mass, normal, tangential) = roe_flux((2.0, 0.5, -1.0), (2.0, 0.5, -1.0));
    assert!((mass - 1.0).abs() <= 1e-12);
    assert!((normal - (2.0 * 0.25 + 0.5 * 4.0)).abs() <= 1e-12);
    assert!((tangential - (-1.0)).abs() <= 1e-12);
}

#[test]
fn roe_shallow_water_selects_components_by_direction() {
    let comps = [0, 1, 2, 3, 4];
    let pos = [0];
    let pick = |l: (i64, i64, i64), r: (i64, i64, i64)| (l.0 + r.0, l.1 + r.1, l.2 * r.2);
    let wl = [1, 2, 3, 4, 5];
    let wr = [10, 20, 30, 40, 50];

    let mut flx = [0i64; 5];
    assert_eq!(roe_shallow_water(&mut flx, &wl, &wr, X1DIR, &comps, &pos, &pick), Ok(()));
    assert_eq!(flx, [11, 22, 90, 0, 0]);

    let mut flx = [0i64; 5];
    assert_eq!(roe_shallow_water(&mut flx, &wl, &wr, X2DIR, &comps, &pos, &pick), Ok(()));
    assert_eq!(flx, [11, 40, 33, 0, 0]);

    let mut flx = [7i64; 5];
    assert_eq!(
        roe_shallow_water(&mut flx, &wl, &wr, X3DIR, &comps, &pos, &pick),
        Err(InvalidParameter::Direction)
    );
    assert_eq!(flx, [7; 5]);
}

#[test]
fn hydro_consistency_is_told_apart() {
    let mut hydro = Hydro::<Real>::new(2, 3);
    assert!(hydro.is_wf());
    assert!(Hydro::<Real>::is_block_wf(&hydro.flx[1]));
    hydro.flx[1].data.push(0.0);
    assert!(!hydro.is_wf());
    assert!(!Hydro::<Real>::is_block_wf(&hydro.flx[1]));
    hydro.flx[1].data.pop();
    hydro.comps[4] = 0;
    assert!(!hydro.is_wf());
}

#[test]
fn face_offsets_are_told_apart() {
    assert!(face_comps_fit_in(&[0, 1, 2, 9, 9], 3));
    assert!(!face_comps_fit_in(&[0, 1, 3, 0, 0], 3));
    assert!(!face_comps_fit_in(&[0, 1, 1, 0, 0], 3));
    assert!(!face_comps_fit_in(&[2, 1, 2, 0, 0], 3));
}

#[test]
fn reconstruct_cell_writes_five_variables() {
    let comps = [0, 2, 4, 6, 8];
    let pick3 = |a: i64, b: i64, c: i64| 100 * a + 10 * b + c;
    let pick5 = |a: i64, b: i64, c: i64, d: i64, e: i64| 10000 * a + 1000 * b + 100 * c + 10 * d + e;
    let wm2 = [1i64; 10];
    let wm1 = [2i64; 10];
    let w = [3i64, 0, 4, 0, 5, 0, 6, 0, 7, 0];
    let wp1 = [8i64; 10];
    let wp2 = [9i64; 10];

    let mut wl = [-1i64; 10];
    let mut wr = [-1i64; 10];
    assert_eq!(
        reconstruct_cell(&mut wl, &mut wr, &wm2, &wm1, &w, &wp1, &wp2, &comps, 1, &pick3, &pick5),
        Ok(())
    );
    assert_eq!(wl, [3, -1, 4, -1, 5, -1, 6, -1, 7, -1]);
    assert_eq!(wr, wl);

    assert_eq!(
        reconstruct_cell(&mut wl, &mut wr, &wm2, &wm1, &w, &wp1, &wp2, &comps, 3, &pick3, &pick5),
        Ok(())
    );
    assert_eq!(wl, [832, -1, 842, -1, 852, -1, 862, -1, 872, -1]);
    assert_eq!(wr, [238, -1, 248, -1, 258, -1, 268, -1, 278, -1]);

    assert_eq!(
        reconstruct_cell(&mut wl, &mut wr, &wm2, &wm1, &w, &wp1, &wp2, &comps, 5, &pick3, &pick5),
        Ok(())
    );
    assert_eq!(wl, [98321, -1, 98421, -1, 98521, -1, 98621, -1, 98721, -1]);
    assert_eq!(wr, [12389, -1, 12489, -1, 12589, -1, 12689, -1, 12789, -1]);

    let mut wl = [-1i64; 10];
    let mut wr = [-1i64; 10];
    assert_eq!(
        reconstruct_cell(&mut wl, &mut wr, &wm2, &wm1, &w, &wp1, &wp2, &comps, 2, &pick3, &pick5),
        Err(InvalidParameter::Order)
    );
    assert_eq!(wl, [-1; 10]);
    assert_eq!(wr, [-1; 10]);
}

#[test]
fn windows_follow_the_direction() {
    let eos = sequential(2, 3);
    let len1 = eos.w.len1;
    let mut along1 = window_along(&eos.w, X1DIR, 2);
    let mut along2 = window_along(&eos.w, X2DIR, -2);
    assert_eq!(along1.next().unwrap()[0], (3 * len1 + 4) as Real);
    assert_eq!(along2.next().unwrap()[0], 3.0);
    let mut n = 1;
    while along1.next().is_some() {
        n += 1;
    }
    assert_eq!(n, (3 + 2) * 2);
    let mut n = 1;
    while along2.next().is_some() {
        n += 1;
    }
    assert_eq!(n, 3 * (2 + 2));
    let mut faces1 = faces_along(&eos.w, X1DIR);
    let mut faces2 = faces_along(&eos.w, X2DIR);
    let mut n = 0;
    while faces1.next().is_some() {
        n += 1;
    }
    assert_eq!(n, (3 + 1) * 2);
    let mut n = 0;
    while faces2.next().is_some() {
        n += 1;
    }
    assert_eq!(n, 3 * (2 + 1));
}

#[test]
fn solve_faces_along_both_directions() {
    let dim2 = 2;
    let dim1 = 2;
    let mut hydro = Hydro::<i64>::new(dim2, dim1);
    for k in 0..hydro.wls[0].size() {
        hydro.wls[1].data[k] = k as i64;
        hydro.wrs[1].data[k] = 2 * k as i64;
    }
    let flux = |l: (i64, i64, i64), r: (i64, i64, i64)| (l.0 + r.0, l.1 - r.1, 7 * l.2 + r.2);
    let Hydro { comps, wls, wrs, flx } = &mut hydro;
    assert_eq!(solve_faces(&mut flx[1], &wls[1], &wrs[1], comps, X2DIR, &flux), Ok(()));
    let len12 = wls[1].len12 as i64;
    for j in -3..(dim2 as i32 + 3) {
        for i in -3..(dim1 as i32 + 3) {
            let face = 0 <= j && j <= dim2 as i32 && 0 <= i && i < dim1 as i32;
            let k = wls[1].get(0, j, i);
            if face {
                assert_eq!(flx[1].get(0, j, i), 3 * k);
                assert_eq!(flx[1].get(2, j, i), -(k + 2 * len12));
                assert_eq!(flx[1].get(1, j, i), 7 * (k + len12) + 2 * (k + len12));
            } else {
                for n in 0..3 {
                    assert_eq!(flx[1].get(n, j, i), 0);
                }
            }
            assert_eq!(flx[1].get(3, j, i), 0);
            assert_eq!(flx[1].get(4, j, i), 0);
        }
    }
    assert_eq!(
        solve_faces(&mut flx[0], &wls[0], &wrs[0], comps, X3DIR, &flux),
        Err(InvalidParameter::Direction)
    );
    assert!(flx[0].data.iter().all(|x| *x == 0));
}
