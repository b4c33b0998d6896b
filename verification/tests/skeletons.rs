use anny_rs::kinematics::bone_poses::{get_bone_poses, EndpointOps};
use anny_rs::kinematics::{
    parallel_forward_kinematic, propagation_fronts, sequential_forward_kinematic, FkError, MatrixOps,
};
use anny_rs::models::pose::{
    pose_parameterization, pose_skeleton, resolve_parameterization, PoseParameterization, PoseState,
    RootOps,
};
use anny_rs::rotation::{
    rigid_inverse_homogeneous, rigid_to_homogeneous, rotvec_to_rotmat, AngleOps,
};
use anny_rs::scalar::{Arithmetic, Division, Lengths, Signs};

type Matrix = [[f64; 4]; 4];

struct Floats;

impl Arithmetic<f64> for Floats {
    fn plus(&self, a: f64, b: f64) -> f64 {
        a + b
    }

    fn minus(&self, a: f64, b: f64) -> f64 {
        a - b
    }

    fn times(&self, a: f64, b: f64) -> f64 {
        a * b
    }

    fn negative(&self, a: f64) -> f64 {
        -a
    }
}

impl Division<f64> for Floats {
    fn quotient(&self, a: f64, b: f64) -> f64 {
        a / b
    }

    fn undefined(&self, a: f64) -> bool {
        a.is_nan()
    }
}

impl Lengths<f64> for Floats {
    fn length(&self, v: &[f64; 3]) -> f64 {
        (v[0] * v[0] + v[1] * v[1] + v[2] * v[2]).sqrt()
    }
}

impl Signs<f64> for Floats {
    fn positive(&self, a: f64) -> bool {
        a > 0.0
    }
}

impl AngleOps<f64> for Floats {
    fn not_zero(&self, a: f64) -> f64 {
        a.max(1e-30)
    }

    fn cosine(&self, angle: f64) -> f64 {
        angle.cos()
    }

    fn sine(&self, angle: f64) -> f64 {
        angle.sin()
    }
}

impl EndpointOps<f64> for Floats {
    fn arc(&self, height: f64, width: f64) -> f64 {
        height.atan2(width)
    }

    fn near_one(&self, a: f64) -> bool {
        (a - 1.0).abs() < 1e-6
    }
}

fn matmul(a: &Matrix, b: &Matrix) -> Matrix {
    let mut r = [[0.0; 4]; 4];
    for i in 0..4 {
        for j in 0..4 {
            for k in 0..4 {
                r[i][j] += a[i][k] * b[k][j];
            }
        }
    }
    r
}

fn identity() -> Matrix {
    let mut r = [[0.0; 4]; 4];
    for i in 0..4 {
        r[i][i] = 1.0;
    }
    r
}

impl MatrixOps<Matrix, String> for Floats {
    fn compose(&self, a: &Matrix, b: &Matrix) -> Result<Matrix, String> {
        Ok(matmul(a, b))
    }

    fn invert(&self, a: &Matrix) -> Result<Matrix, String> {
        Ok(rigid_inverse_homogeneous(a, 0.0, 1.0, &Floats))
    }
}

impl RootOps<Matrix, String> for Floats {
    fn rotation_only(&self, a: &Matrix) -> Result<Matrix, String> {
        let mut r = *a;
        for row in r.iter_mut().take(3) {
            row[3] = 0.0;
        }
        Ok(r)
    }

    fn world_root(&self, a: &Matrix, b: &Matrix) -> Result<Matrix, String> {
        let turn = self.rotation_only(b)?;
        let mut r = matmul(&self.rotation_only(a)?, &self.invert(&turn)?);
        for i in 0..3 {
            r[i][3] = a[i][3];
        }
        Ok(r)
    }
}

/// Every composition fails.
struct Broken;

impl MatrixOps<Matrix, String> for Broken {
    fn compose(&self, _a: &Matrix, _b: &Matrix) -> Result<Matrix, String> {
        Err("no product".to_string())
    }

    fn invert(&self, a: &Matrix) -> Result<Matrix, String> {
        Ok(*a)
    }
}

fn rigid(v: [f64; 3], t: [f64; 3]) -> Matrix {
    rigid_to_homogeneous(&rotvec_to_rotmat(&v, 0.0, 1.0, &Floats), &t, 0.0, 1.0)
}

fn max_diff(a: &Vec<Matrix>, b: &Vec<Matrix>) -> f64 {
    assert_eq!(a.len(), b.len());
    let mut most: f64 = 0.0;
    for (x, y) in a.iter().zip(b.iter()) {
        for i in 0..4 {
            for j in 0..4 {
                most = most.max((x[i][j] - y[i][j]).abs());
            }
        }
    }
    most
}

#[test]
fn fronts_simple_chain() {
    let parents = vec![-1_i64, 0, 1, 2];
    let fronts = propagation_fronts(&parents);
    assert_eq!(fronts.len(), 4);
    assert_eq!(fronts[0].0, vec![0]);
    assert_eq!(fronts[1].0, vec![1]);
    assert_eq!(fronts[2].0, vec![2]);
    assert_eq!(fronts[3].0, vec![3]);
}

#[test]
fn fronts_branching() {
    let parents = vec![-1_i64, 0, 0, 0, 1];
    let fronts = propagation_fronts(&parents);
    assert_eq!(fronts.len(), 3);
    assert_eq!(fronts[0].0, vec![0]);
    assert_eq!(fronts[1].0, vec![1, 2, 3]);
    assert_eq!(fronts[2].0, vec![4]);
}

#[test]
fn fronts_name_the_parents_of_their_bones() {
    let fronts = propagation_fronts(&vec![-1, 0, 0, 1, -1]);
    assert_eq!(fronts[0], (vec![0, 4], vec![-1, -1]));
    assert_eq!(fronts[1], (vec![1, 2], vec![0, 0]));
    assert_eq!(fronts[2], (vec![3], vec![1]));
    assert!(propagation_fronts(&vec![]).is_empty());
}

#[test]
fn fronts_cover_bones_in_any_order() {
    // The root stands after its child, and a grandchild before both.
    let fronts = propagation_fronts(&vec![2, -1, 1]);
    assert_eq!(fronts, vec![(vec![1], vec![-1]), (vec![2], vec![1]), (vec![0], vec![2])]);
    let rest = arbitrary_rest_chain();
    let delta = vec![identity(); 3];
    let out = parallel_forward_kinematic(&fronts, &rest, &delta, None, &Floats).unwrap();
    for b in 0..3 {
        for r in 0..4 {
            for c in 0..4 {
                assert!((out.poses[b][r][c] - rest[b][r][c]).abs() < 1e-12);
            }
        }
    }
}

fn arbitrary_rest_chain() -> Vec<Matrix> {
    vec![
        rigid([0.1, 0.2, 0.3], [1.0, 2.0, 3.0]),
        rigid([0.4, -0.1, 0.05], [1.5, 2.5, 3.5]),
        rigid([-0.2, 0.0, 0.4], [1.7, 2.8, 4.0]),
    ]
}

#[test]
fn fk_identity_delta_recovers_rest() {
    let parents = vec![-1_i64, 0, 1];
    let fronts = propagation_fronts(&parents);
    let rest = arbitrary_rest_chain();
    let n = rest.len();
    let delta = vec![identity(); n];
    let out = parallel_forward_kinematic(&fronts, &rest, &delta, None, &Floats).unwrap();
    assert_eq!(out.poses.len(), n);
    for k in 0..n {
        for i in 0..4 {
            for j in 0..4 {
                let want = if i == j { 1.0 } else { 0.0 };
                let got = out.transforms[k][i][j];
                assert!((got - want).abs() < 1e-9, "transforms[{}][{}][{}] = {}, want {}", k, i, j, got, want);
            }
        }
    }
    assert!(max_diff(&out.poses, &rest) < 1e-9);
}

/// A small deterministic sequence of numbers.
struct Rng {
    state: u64,
}

impl Rng {
    fn new(seed: u64) -> Self {
        Self { state: seed }
    }

    fn next_u64(&mut self) -> u64 {
        self.state = self.state.wrapping_add(0x9E3779B97F4A7C15);
        let mut z = self.state;
        z = (z ^ (z >> 30)).wrapping_mul(0xBF58476D1CE4E5B9);
        z = (z ^ (z >> 27)).wrapping_mul(0x94D049BB133111EB);
        z ^ (z >> 31)
    }

    fn next_f64(&mut self) -> f64 {
        let bits = self.next_u64() >> 11;
        bits as f64 / (1u64 << 53) as f64
    }

    fn next_normal(&mut self) -> f64 {
        let u1 = self.next_f64().max(1e-30);
        let u2 = self.next_f64();
        (-2.0 * u1.ln()).sqrt() * (2.0 * std::f64::consts::PI * u2).cos()
    }
}

fn random_rigid_batch(rng: &mut Rng, bs: usize, k: usize) -> Vec<Vec<Matrix>> {
    let rotvecs: Vec<f64> = (0..bs * k * 3).map(|_| rng.next_normal() * 0.5).collect();
    let translations: Vec<f64> = (0..bs * k * 3).map(|_| rng.next_normal() * 0.5).collect();
    let mut batch = Vec::new();
    for b in 0..bs {
        let mut row = Vec::new();
        for i in 0..k {
            let at = (b * k + i) * 3;
            row.push(rigid(
                [rotvecs[at], rotvecs[at + 1], rotvecs[at + 2]],
                [translations[at], translations[at + 1], translations[at + 2]],
            ));
        }
        batch.push(row);
    }
    batch
}

#[test]
fn parity_sequential_vs_parallel_fk_synthetic() {
    let parents = vec![-1_i64, 0, 0, 1, 2, 1, 2];
    let bs = 4;
    let n = parents.len();
    let mut rng = Rng::new(0xa1ce);
    let rest = random_rigid_batch(&mut rng, bs, n);
    let delta = random_rigid_batch(&mut rng, bs, n);
    let fronts = propagation_fronts(&parents);
    for b in 0..bs {
        let parallel = parallel_forward_kinematic(&fronts, &rest[b], &delta[b], None, &Floats).unwrap();
        let sequential = sequential_forward_kinematic(&parents, &rest[b], &delta[b], &Floats).unwrap();
        let max_pose = max_diff(&parallel.poses, &sequential.poses);
        let max_transform = max_diff(&parallel.transforms, &sequential.transforms);
        assert!(max_pose < 1e-12, "poses diverge: max abs err = {}", max_pose);
        assert!(max_transform < 1e-12, "transforms diverge: max abs err = {}", max_transform);
    }
}

#[test]
fn kinematics_report_their_errors() {
    let rest = arbitrary_rest_chain();
    let delta = vec![identity(); 3];
    match sequential_forward_kinematic(&vec![-1, 0], &rest, &delta, &Floats) {
        Err(FkError::ParentCount { parents, bones }) => assert_eq!((parents, bones), (2, 3)),
        other => panic!("{:?}", other),
    }
    match sequential_forward_kinematic(&vec![-1, 0, 1], &rest, &delta, &Broken) {
        Err(FkError::Matrix(e)) => assert_eq!(e, "no product"),
        other => panic!("{:?}", other),
    }
    let fronts = propagation_fronts(&vec![-1, 0, 1]);
    match parallel_forward_kinematic(&fronts, &rest, &delta, None, &Broken) {
        Err(FkError::Matrix(e)) => assert_eq!(e, "no product"),
        other => panic!("{:?}", other),
    }
    let none: Vec<Matrix> = vec![];
    assert!(matches!(
        parallel_forward_kinematic(&vec![], &none, &none, None, &Floats),
        Err(FkError::NoBones)
    ));
    assert!(matches!(
        sequential_forward_kinematic(&vec![], &none, &none, &Floats),
        Err(FkError::NoBones)
    ));
    assert!(matches!(
        sequential_forward_kinematic(&vec![-1], &none, &none, &Floats),
        Err(FkError::ParentCount { parents: 1, bones: 0 })
    ));
}

#[test]
fn base_transform_moves_the_root() {
    let fronts = propagation_fronts(&vec![-1, 0, 1]);
    let rest = arbitrary_rest_chain();
    let base = rigid([0.0, 0.0, 0.0], [5.0, 0.0, 0.0]);
    let delta = vec![identity(); 3];
    let out = parallel_forward_kinematic(&fronts, &rest, &delta, Some(&base), &Floats).unwrap();
    for k in 0..3 {
        assert!((out.poses[k][0][3] - rest[k][0][3] - 5.0).abs() < 1e-9);
        assert!((out.transforms[k][0][3] - 5.0).abs() < 1e-9);
    }
}

const MODES: [PoseParameterization; 4] = [
    PoseParameterization::RestRelative,
    PoseParameterization::RootRelative,
    PoseParameterization::RootRelativeWorld,
    PoseParameterization::Absolute,
];

fn posed(mode: PoseParameterization, rest: &Vec<Matrix>, params: &Vec<Matrix>) -> PoseState<Matrix> {
    let parents = vec![-1_i64, 0, 0, 1, 2, 1, 2];
    let fronts = propagation_fronts(&parents);
    pose_skeleton(&Floats, mode, &fronts, &parents, rest.clone(), params.clone(), &identity()).unwrap()
}

#[test]
fn every_pair_of_parameterizations_round_trips() {
    let mut rng = Rng::new(0xb007);
    let rest = random_rigid_batch(&mut rng, 1, 7).remove(0);
    let params = random_rigid_batch(&mut rng, 1, 7).remove(0);
    for from in MODES {
        let first = posed(from, &rest, &params);
        let poses = first.poses.clone();
        for to in MODES {
            let again = pose_parameterization(&Floats, first.clone(), to).unwrap();
            let second = posed(to, &rest, &again);
            assert!(max_diff(&poses, &second.poses) < 1e-9, "{:?} to {:?}", from, to);
        }
    }
}

#[test]
fn absolute_poses_stand_as_given() {
    let mut rng = Rng::new(3);
    let rest = random_rigid_batch(&mut rng, 1, 7).remove(0);
    let params = random_rigid_batch(&mut rng, 1, 7).remove(0);
    let state = posed(PoseParameterization::Absolute, &rest, &params);
    assert!(max_diff(&state.poses, &params) < 1e-12);
    for k in 0..7 {
        let back = matmul(&state.transforms[k], &rest[k]);
        assert!(max_diff(&vec![back], &vec![params[k]]) < 1e-9);
    }
}

#[test]
fn rest_relative_poses_are_taken_as_deltas() {
    let rest = arbitrary_rest_chain();
    let params = arbitrary_rest_chain();
    let r = resolve_parameterization(
        &Floats,
        PoseParameterization::RestRelative,
        &vec![-1, 0, 1],
        &rest,
        params.clone(),
        &identity(),
    )
    .unwrap();
    assert!(max_diff(&r.delta_transforms, &params) == 0.0);
    assert!(r.base_transform.is_none());
    assert!(r.bone_overrides.is_none());
}

#[test]
fn bones_without_a_parent_are_taken_under_the_identity() {
    let parents = vec![-1, -1];
    let rest: Vec<Matrix> = vec![identity(), identity()];
    let mut params = vec![identity(), identity()];
    params[0][0][3] = 2.0;
    params[1][1][3] = 3.0;
    let r = resolve_parameterization(
        &Floats,
        PoseParameterization::Absolute,
        &parents,
        &rest,
        params.clone(),
        &identity(),
    )
    .unwrap();
    // Neither delta is relative to the other root.
    assert!(max_diff(&r.delta_transforms, &params) < 1e-12);
    // Where both kinds of parameters treat the first root apart, they pose all roots
    // the same way again.
    let fronts = propagation_fronts(&parents);
    let rest = vec![rigid([0.1, 0.2, 0.3], [1.0, 0.0, 2.0]), rigid([0.0, 0.5, 0.0], [0.0, 3.0, 0.0])];
    let relative = PoseParameterization::RootRelative;
    let world = PoseParameterization::RootRelativeWorld;
    let pose = |mode: PoseParameterization, params: Vec<Matrix>| {
        pose_skeleton(&Floats, mode, &fronts, &parents, rest.clone(), params, &identity()).unwrap()
    };
    for (from, to) in [(relative, world), (world, relative), (world, PoseParameterization::Absolute)] {
        let first = pose(from, params.clone());
        let again = pose_parameterization(&Floats, first.clone(), to).unwrap();
        assert!(max_diff(&pose(to, again).poses, &first.poses) < 1e-9);
    }
}

#[test]
fn bone_poses_point_from_head_to_tail() {
    let heads = vec![[0.0, 0.0, 0.0], [1.0, 2.0, 3.0], [0.0, 1.0, 0.0], [0.0, 1.0, 0.0]];
    let tails = vec![[2.0, 0.0, 0.0], [1.0, 2.0, 7.0], [0.0, 4.0, 0.0], [0.0, -4.0, 0.0]];
    let eye = [[1.0, 0.0, 0.0], [0.0, 1.0, 0.0], [0.0, 0.0, 1.0]];
    let over = [[1.0, 0.0, 0.0], [0.0, -1.0, 0.0], [0.0, 0.0, -1.0]];
    let poses = get_bone_poses(
        &heads,
        &tails,
        &vec![eye; 4],
        &[0.0, 1.0, 0.0],
        &over,
        0.0,
        1.0,
        &Floats,
    );
    let dirs = [[1.0, 0.0, 0.0], [0.0, 0.0, 1.0], [0.0, 1.0, 0.0], [0.0, -1.0, 0.0]];
    for k in 0..4 {
        for c in 0..3 {
            assert!((poses[k][c][3] - heads[k][c]).abs() < 1e-12);
            // The second column is the axis of the bone.
            assert!((poses[k][c][1] - dirs[k][c]).abs() < 1e-9, "{} {}", k, c);
        }
        assert_eq!(poses[k][3], [0.0, 0.0, 0.0, 1.0]);
    }
    // A bone along the axis keeps its axes, and only one against it is turned over.
    for c in 0..3 {
        assert_eq!(poses[2][c][..3], eye[c][..]);
        assert_eq!(poses[3][c][..3], over[c][..]);
    }
}
