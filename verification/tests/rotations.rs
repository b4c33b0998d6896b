use anny_rs::registration::proper::{best_rotation, nearest_rotation, FactorOps};
use anny_rs::registration::{register, rigid_points_registration, RegistrationOps};
use anny_rs::rotation::{
    euler_to_rotmat, quat_action, quat_conjugation, quat_product, rigid_from_homogeneous,
    rigid_inverse_homogeneous, rigid_to_homogeneous, rotmat_to_unitquat, rotvec_to_rotmat, AngleOps,
    RotationOps,
};
use anny_rs::scalar::{Arithmetic, Bounds, Division, Lengths, Signs};

struct Floats;

impl Arithmetic<f64> for Floats {
    fn plus(&self, a: f64, b: f64) -> f64 {
        a + b
    }

    fn minus(&self, a: f64, b: f64) -> f64 {
        a - b
    }

    fn times(&self, a: f64, b: f64) -> f64 {
        a * b
    }

    fn negative(&self, a: f64) -> f64 {
        -a
    }
}

impl Division<f64> for Floats {
    fn quotient(&self, a: f64, b: f64) -> f64 {
        a / b
    }

    fn undefined(&self, a: f64) -> bool {
        a.is_nan()
    }
}

impl Bounds<f64> for Floats {
    fn less(&self, a: f64, b: f64) -> bool {
        a < b
    }
}

impl Signs<f64> for Floats {
    fn positive(&self, a: f64) -> bool {
        a > 0.0
    }
}

impl Lengths<f64> for Floats {
    fn length(&self, v: &[f64; 3]) -> f64 {
        (v[0] * v[0] + v[1] * v[1] + v[2] * v[2]).sqrt()
    }
}

impl RotationOps<f64> for Floats {
    fn doubled_root(&self, a: f64) -> f64 {
        a.sqrt() * 2.0
    }

    fn quarter(&self, a: f64) -> f64 {
        0.25 * a
    }
}

impl AngleOps<f64> for Floats {
    fn not_zero(&self, a: f64) -> f64 {
        a.max(1e-30)
    }

    fn cosine(&self, angle: f64) -> f64 {
        angle.cos()
    }

    fn sine(&self, angle: f64) -> f64 {
        angle.sin()
    }
}

fn matrix3(m: &[[f64; 3]; 3]) -> nalgebra::Matrix3<f64> {
    nalgebra::Matrix3::from_fn(|i, j| m[i][j])
}

fn rows3(m: &nalgebra::Matrix3<f64>) -> [[f64; 3]; 3] {
    let mut r = [[0.0; 3]; 3];
    for i in 0..3 {
        for j in 0..3 {
            r[i][j] = m[(i, j)];
        }
    }
    r
}

impl FactorOps<f64> for Floats {
    fn factors(&self, m: &[[f64; 3]; 3]) -> ([[f64; 3]; 3], [[f64; 3]; 3]) {
        let svd = matrix3(m).svd(true, true);
        (rows3(&svd.u.unwrap()), rows3(&svd.v_t.unwrap()))
    }

    fn sign(&self, a: f64) -> f64 {
        a.signum()
    }
}

impl RegistrationOps<f64> for Floats {
    fn reciprocal(&self, a: f64) -> f64 {
        1.0 / a
    }
}

fn rotvec(v: [f64; 3]) -> [[f64; 3]; 3] {
    rotvec_to_rotmat(&v, 0.0, 1.0, &Floats)
}

fn times(m: &[[f64; 3]; 3], v: &[f64; 3]) -> [f64; 3] {
    let mut r = [0.0; 3];
    for i in 0..3 {
        for j in 0..3 {
            r[i] += m[i][j] * v[j];
        }
    }
    r
}

fn near(a: f64, b: f64, eps: f64) {
    assert!((a - b).abs() < eps, "{} is not near {}", a, b);
}

fn near3(a: &[[f64; 3]; 3], b: &[[f64; 3]; 3], eps: f64) {
    for i in 0..3 {
        for j in 0..3 {
            near(a[i][j], b[i][j], eps);
        }
    }
}

#[test]
fn rotvec_zero_is_identity() {
    let r = rotvec([0.0, 0.0, 0.0]);
    near3(&r, &[[1.0, 0.0, 0.0], [0.0, 1.0, 0.0], [0.0, 0.0, 1.0]], 1e-12);
}

#[test]
fn rotvec_z_pi_over_two() {
    let r = rotvec([0.0, 0.0, std::f64::consts::FRAC_PI_2]);
    near3(&r, &[[0.0, -1.0, 0.0], [1.0, 0.0, 0.0], [0.0, 0.0, 1.0]], 1e-12);
}

fn euler(axis: char, angle: f64, degrees: bool) -> Option<[[f64; 3]; 3]> {
    let per_degree = if degrees { Some(std::f64::consts::PI / 180.0) } else { None };
    euler_to_rotmat(axis, angle, per_degree, 0.0, 1.0, &Floats)
}

#[test]
fn euler_x_90deg_matches_rotvec() {
    let a = euler('x', std::f64::consts::FRAC_PI_2, false).unwrap();
    let b = rotvec([std::f64::consts::FRAC_PI_2, 0.0, 0.0]);
    near3(&a, &b, 1e-12);
}

#[test]
fn euler_degrees_flag() {
    let a = euler('y', std::f64::consts::FRAC_PI_4, false).unwrap();
    let b = euler('y', 45.0, true).unwrap();
    near3(&a, &b, 1e-12);
}

#[test]
fn euler_axes_are_case_insensitive_and_bounded() {
    for (lower, upper, v) in [('x', 'X', [1.0, 0.0, 0.0]), ('y', 'Y', [0.0, 1.0, 0.0]), ('z', 'Z', [0.0, 0.0, 1.0])] {
        let a = euler(lower, 0.3, false).unwrap();
        let b = euler(upper, 0.3, false).unwrap();
        near3(&a, &b, 1e-15);
        near3(&a, &rotvec([0.3 * v[0], 0.3 * v[1], 0.3 * v[2]]), 1e-12);
    }
    assert!(euler('w', 0.3, false).is_none());
}

#[test]
fn rotmat_unitquat_roundtrip() {
    let rotvecs = [[0.3, -0.7, 0.2], [0.0, 0.0, 0.0], [1.4, 0.0, 0.0]];
    let vs = [[1.0, 0.5, -0.3], [0.1, 0.2, 0.3], [-1.0, 2.0, 0.5]];
    for k in 0..3 {
        let r = rotvec(rotvecs[k]);
        let q = rotmat_to_unitquat(&r, 1.0, &Floats);
        let by_quat = quat_action(&q, &vs[k], 0.0, &Floats);
        let by_mat = times(&r, &vs[k]);
        for j in 0..3 {
            near(by_quat[j], by_mat[j], 1e-9);
        }
    }
}

#[test]
fn every_pivot_gives_the_rotation_back() {
    let pi = std::f64::consts::PI;
    for v in [[3.0, 0.1, 0.2], [0.1, 3.0, 0.2], [0.1, 0.2, 3.0], [pi, 0.0, 0.0], [0.0, pi, 0.0], [0.0, 0.0, pi]] {
        let r = rotvec(v);
        let q = rotmat_to_unitquat(&r, 1.0, &Floats);
        near(q[0] * q[0] + q[1] * q[1] + q[2] * q[2] + q[3] * q[3], 1.0, 1e-12);
        for p in [[1.0, 0.0, 0.0], [0.0, 1.0, 0.0], [0.0, 0.0, 1.0]] {
            let a = quat_action(&q, &p, 0.0, &Floats);
            let b = times(&r, &p);
            for j in 0..3 {
                near(a[j], b[j], 1e-9);
            }
        }
    }
}

#[test]
fn quat_product_identity() {
    let q = [0.0, 0.5, 0.0, 0.5_f64.sqrt()];
    let norm: f64 = q.iter().map(|x: &f64| x * x).sum::<f64>().sqrt();
    let q = [q[0] / norm, q[1] / norm, q[2] / norm, q[3] / norm];
    let id = [0.0, 0.0, 0.0, 1.0];
    let prod = quat_product(&q, &id, &Floats);
    for i in 0..4 {
        near(q[i], prod[i], 1e-12);
    }
}

#[test]
fn quaternion_units_multiply() {
    let i = [1.0, 0.0, 0.0, 0.0];
    let j = [0.0, 1.0, 0.0, 0.0];
    assert_eq!(quat_product(&i, &j, &Floats), [0.0, 0.0, 1.0, 0.0]);
    assert_eq!(quat_product(&j, &i, &Floats), [0.0, 0.0, -1.0, 0.0]);
    assert_eq!(quat_product(&i, &i, &Floats), [0.0, 0.0, 0.0, -1.0]);
    assert_eq!(quat_conjugation(&[1.0, -2.0, 3.0, 4.0], &Floats), [-1.0, 2.0, -3.0, 4.0]);
}

#[test]
fn product_rotates_by_the_second_first() {
    let p = rotmat_to_unitquat(&rotvec([0.3, 0.1, -0.4]), 1.0, &Floats);
    let q = rotmat_to_unitquat(&rotvec([-0.2, 0.6, 0.5]), 1.0, &Floats);
    let v = [0.4, -1.0, 2.0];
    let together = quat_action(&quat_product(&p, &q, &Floats), &v, 0.0, &Floats);
    let inner = quat_action(&q, &v, 0.0, &Floats);
    let apart = quat_action(&p, &inner, 0.0, &Floats);
    for j in 0..3 {
        near(together[j], apart[j], 1e-12);
    }
}

#[test]
fn rigid_homogeneous_roundtrip() {
    let r = rotvec([0.3, 0.4, 0.1]);
    let t = [0.7, -1.2, 0.3];
    let h = rigid_to_homogeneous(&r, &t, 0.0, 1.0);
    assert_eq!(h.len(), 4);
    assert_eq!(h[3], [0.0, 0.0, 0.0, 1.0]);
    let (r2, t2) = rigid_from_homogeneous(&h);
    near3(&r, &r2, 1e-12);
    for i in 0..3 {
        near(t[i], t2[i], 1e-12);
    }
}

#[test]
fn rigid_inverse_undoes_transform() {
    let r = rotvec([0.3, -0.4, 0.7]);
    let t = [0.5, -0.2, 1.1];
    let h = rigid_to_homogeneous(&r, &t, 0.0, 1.0);
    let inv = rigid_inverse_homogeneous(&h, 0.0, 1.0, &Floats);
    for i in 0..4 {
        for j in 0..4 {
            let mut got = 0.0;
            for k in 0..4 {
                got += h[i][k] * inv[k][j];
            }
            near(got, if i == j { 1.0 } else { 0.0 }, 1e-9);
        }
    }
}

#[test]
fn registration_recovers_known_rigid() {
    let src = vec![
        [0.0, 0.0, 0.0],
        [1.0, 0.0, 0.0],
        [0.0, 1.0, 0.0],
        [0.0, 0.0, 1.0],
        [1.0, 1.0, 0.0],
        [0.5, 0.5, 0.5],
    ];
    let r = rotvec([0.0, 0.0, 30.0_f64.to_radians()]);
    let t = [0.4, -0.7, 1.2];
    let tgt: Vec<[f64; 3]> = src
        .iter()
        .map(|p| {
            let q = times(&r, p);
            [q[0] + t[0], q[1] + t[1], q[2] + t[2]]
        })
        .collect();
    let found = rigid_points_registration(&vec![src], &vec![tgt], None, 0.0, 1.0, &Floats);
    assert_eq!(found.len(), 1);
    near3(&found[0].rotation, &r, 1e-9);
    for i in 0..3 {
        near(found[0].translation[i], t[i], 1e-9);
    }
}

#[test]
fn no_motion_fits_better() {
    // No rigid motion takes the first points to the second.
    let src = vec![[0.0, 0.0, 0.0], [1.0, 0.2, 0.0], [0.0, 1.0, 0.5], [0.3, 0.0, 1.0], [1.0, 1.0, 2.0]];
    let tgt = vec![[0.1, 0.0, 0.3], [0.2, 1.4, 0.0], [-1.0, 0.4, 0.2], [0.0, 0.5, 2.0], [-0.7, 1.0, 1.0]];
    let weights = vec![1.0, 0.5, 2.0, 1.5, 0.25];
    let misfit = |m: &[[f64; 3]; 3], t: &[f64; 3]| -> f64 {
        let miss = |i: usize| {
            let q = times(m, &src[i]);
            (0..3).map(|c| (q[c] + t[c] - tgt[i][c]).powi(2)).sum::<f64>()
        };
        (0..5).map(|i| weights[i] * miss(i)).sum()
    };
    let given = Some(vec![weights.clone()]);
    let found = rigid_points_registration(
        &vec![src.clone()],
        &vec![tgt.clone()],
        given.as_ref(),
        0.0,
        1.0,
        &Floats,
    );
    let (r, t) = (&found[0].rotation, &found[0].translation);
    let best = misfit(r, t);
    assert!(best > 0.1);
    for axis in 0..3 {
        for by in [-1.5, -0.1, -0.01, 0.01, 0.1, 1.5] {
            let mut v = [0.0; 3];
            v[axis] = by;
            let spin = rotvec(v);
            let mut other = [[0.0; 3]; 3];
            for i in 0..3 {
                for j in 0..3 {
                    other[i][j] = (0..3).map(|k| spin[i][k] * r[k][j]).sum();
                }
            }
            assert!(misfit(&other, t) > best);
            let mut moved = *t;
            moved[axis] += by;
            assert!(misfit(r, &moved) > best);
        }
    }
}

#[test]
fn weights_pick_the_points_that_count() {
    // The last point is an outlier without weight.
    let src = vec![[0.0, 0.0, 0.0], [1.0, 0.0, 0.0], [0.0, 1.0, 0.0], [0.0, 0.0, 1.0], [5.0, 5.0, 5.0]];
    let mut tgt: Vec<[f64; 3]> = src.iter().map(|p| [p[0] + 1.0, p[1] + 2.0, p[2] + 3.0]).collect();
    tgt[4] = [-9.0, 4.0, 0.0];
    let weights = vec![1.0, 1.0, 1.0, 1.0, 0.0];
    let found = rigid_points_registration(
        &vec![src.clone()],
        &vec![tgt.clone()],
        Some(&vec![weights.clone()]),
        0.0,
        1.0,
        &Floats,
    );
    for (got, want) in found[0].translation.iter().zip([1.0, 2.0, 3.0]) {
        near(*got, want, 1e-9);
    }
    let single = register(&src, &tgt, &weights, 0.0, 1.0, &Floats);
    near3(&single.rotation, &found[0].rotation, 1e-15);
}

fn determinant(m: &[[f64; 3]; 3]) -> f64 {
    m[0][0] * (m[1][1] * m[2][2] - m[1][2] * m[2][1]) - m[0][1] * (m[1][0] * m[2][2] - m[1][2] * m[2][0])
        + m[0][2] * (m[1][0] * m[2][1] - m[1][1] * m[2][0])
}

#[test]
fn factors_give_the_rotation_back() {
    let r = rotvec([0.3, -0.7, 0.2]);
    let mut stretched = [[0.0; 3]; 3];
    let mut across = [[0.0; 3]; 3];
    for i in 0..3 {
        for j in 0..3 {
            stretched[i][j] = 2.5 * r[i][j];
            across[j][i] = 0.5 * r[i][j];
        }
    }
    let nearest = nearest_rotation(&Floats, 0.0, 1.0, &stretched);
    let best = best_rotation(&Floats, 0.0, 1.0, &across);
    for i in 0..3 {
        for j in 0..3 {
            assert!((nearest[i][j] - r[i][j]).abs() < 1e-12);
            assert!((best[i][j] - r[i][j]).abs() < 1e-12);
        }
    }
}

#[test]
fn mirrors_become_rotations() {
    let mirror = [[3.0, 0.0, 0.0], [0.0, 2.0, 0.0], [0.0, 0.0, -1.0]];
    let swap = [[0.0, 1.0, 0.0], [1.0, 0.0, 0.0], [0.0, 0.0, 1.0]];
    for m in [mirror, swap] {
        for r in [nearest_rotation(&Floats, 0.0, 1.0, &m), best_rotation(&Floats, 0.0, 1.0, &m)] {
            assert!((determinant(&r) - 1.0).abs() < 1e-12);
            for i in 0..3 {
                for j in 0..3 {
                    let dot: f64 = (0..3).map(|k| r[i][k] * r[j][k]).sum();
                    let want = if i == j { 1.0 } else { 0.0 };
                    assert!((dot - want).abs() < 1e-12);
                }
            }
        }
    }
    // The least axis is the one that is turned over.
    let r = nearest_rotation(&Floats, 0.0, 1.0, &mirror);
    assert!((r[0][0] - 1.0).abs() < 1e-12 && (r[1][1] - 1.0).abs() < 1e-12 && (r[2][2] - 1.0).abs() < 1e-12);
}

#[test]
fn points_in_a_plane_are_enough() {
    let r = rotvec([0.4, 0.1, -0.9]);
    let t = [0.5, -2.0, 1.5];
    let src = vec![[0.0, 0.0, 1.0], [1.0, 0.0, 1.0], [0.0, 2.0, 1.0], [3.0, 1.0, 1.0]];
    let tgt: Vec<[f64; 3]> = src
        .iter()
        .map(|p| {
            let q = times(&r, p);
            [q[0] + t[0], q[1] + t[1], q[2] + t[2]]
        })
        .collect();
    let found = register(&src, &tgt, &vec![1.0, 2.0, 0.5, 0.0], 0.0, 1.0, &Floats);
    near3(&found.rotation, &r, 1e-12);
    for i in 0..3 {
        assert!((found.translation[i] - t[i]).abs() < 1e-12);
    }
}
