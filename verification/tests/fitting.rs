use anny_rs::models::full_model::{Faces, Figure, ModelOptions};
use anny_rs::models::pose::PoseParameterization;
use anny_rs::models::rig::{CoordinateRegressorJson, RigBoneJson, WeightsJson};
use anny_rs::parameters_regressor::fitting::{
    register_bones, sanitize_pose_parameters, zero_translation_for_supported_joints, BoneOps,
};
use anny_rs::parameters_regressor::phenotype_step::{macro_jacobian, tikhonov_solve};
use anny_rs::parameters_regressor::schedule::{
    best_anchors, fit, fit_with_age_anchor_search, jointwise_registration, AnchorOps, FitOps, FitResult,
    Judged, Plan, SearchError,
};
use anny_rs::parameters_regressor::{
    apply_phenotype_delta, build_partition, key_columns, optim_keys, perturb_phenotype, regularisation,
    repeat_phenotype, repeat_values, sample_vertices, BoneRegions, SolveOps, StepBounds, UnknownLabel,
};
use anny_rs::phenotype::{BatchMismatch, PhenotypeValues};
use anny_rs::registration::proper::FactorOps;
use anny_rs::registration::RegistrationOps;
use anny_rs::data::obj::ObjMesh;
use anny_rs::scalar::{Arithmetic, Bounds, Division, Signs};

struct Floats;

impl Arithmetic<f64> for Floats {
    fn plus(&self, a: f64, b: f64) -> f64 {
        a + b
    }

    fn minus(&self, a: f64, b: f64) -> f64 {
        a - b
    }

    fn times(&self, a: f64, b: f64) -> f64 {
        a * b
    }

    fn negative(&self, a: f64) -> f64 {
        -a
    }
}

impl Division<f64> for Floats {
    fn quotient(&self, a: f64, b: f64) -> f64 {
        a / b
    }

    fn undefined(&self, a: f64) -> bool {
        a.is_nan()
    }
}

impl Bounds<f64> for Floats {
    fn less(&self, a: f64, b: f64) -> bool {
        a < b
    }
}

impl Signs<f64> for Floats {
    fn positive(&self, a: f64) -> bool {
        a > 0.0
    }
}

fn matrix3(m: &[[f64; 3]; 3]) -> nalgebra::Matrix3<f64> {
    nalgebra::Matrix3::from_fn(|i, j| m[i][j])
}

fn rows3(m: &nalgebra::Matrix3<f64>) -> [[f64; 3]; 3] {
    let mut r = [[0.0; 3]; 3];
    for i in 0..3 {
        for j in 0..3 {
            r[i][j] = m[(i, j)];
        }
    }
    r
}

impl FactorOps<f64> for Floats {
    fn factors(&self, m: &[[f64; 3]; 3]) -> ([[f64; 3]; 3], [[f64; 3]; 3]) {
        let svd = matrix3(m).svd(true, true);
        (rows3(&svd.u.unwrap()), rows3(&svd.v_t.unwrap()))
    }

    fn sign(&self, a: f64) -> f64 {
        a.signum()
    }
}

impl RegistrationOps<f64> for Floats {
    fn reciprocal(&self, a: f64) -> f64 {
        1.0 / a
    }
}

impl BoneOps<f64> for Floats {
    fn doubled(&self, a: f64) -> f64 {
        2.0 * a
    }
}

/// Nothing is solved: the entries of the equations are told apart in the sum.
impl SolveOps<f64> for Floats {
    fn solved(&self, m: &Vec<Vec<f64>>, y: &Vec<f64>) -> Option<Vec<f64>> {
        if y[0] == 0.0 {
            None
        } else {
            Some(vec![10.0 * m[0][0] + m[0][1] + 0.5 * m[1][1] + y[0], f64::NAN])
        }
    }

    fn finite(&self, a: f64) -> bool {
        a.is_finite()
    }
}

fn place(i: usize, n: usize, of: usize) -> usize {
    let frac = i as f64 / (n.max(1) - 1).max(1) as f64;
    (frac * (of - 1) as f64).round() as usize
}

#[test]
fn bones_own_the_vertices_they_move() {
    let p = build_partition(
        vec![0, 2, 3],
        &vec![vec![0, 1], vec![0, 1], vec![1, 7], vec![1, 0]],
        &vec![vec![0.75, 0.25], vec![1.0, 0.0], vec![1.0, 0.5], vec![0.75, 0.001]],
        2,
        |w: &f64| *w >= 0.01,
        &Floats,
        0.0,
    );
    assert_eq!(p.joint_vertex_sets, vec![vec![0], vec![0, 1, 2]]);
    assert_eq!(p.vertex_joint_weights, vec![vec![1.0], vec![0.125, 0.5, 0.375]]);
}

#[test]
fn samples_spread_over_the_vertices() {
    assert_eq!(sample_vertices(11, 3, place), vec![0, 5, 10]);
    assert_eq!(sample_vertices(11, 50, place), (0..11).collect::<Vec<u32>>());
    assert_eq!(sample_vertices(11, 1, place), vec![0]);
    assert!(sample_vertices(0, 3, place).is_empty());
}

#[test]
fn regressors_know_the_used_vertices() {
    let at = |v: u32| CoordinateRegressorJson {
        strategy: "VERTEX".to_string(),
        cube_name: None,
        vertex_index: Some(v),
        vertex_indices: None,
    };
    let rig = vec![("root".to_string(), RigBoneJson { head: at(0), tail: at(1), roll: 0.0, parent: String::new() })];
    let mut weights = WeightsJson { weights: vec![("root".to_string(), vec![(0, 1.0), (1, 1.0), (2, 1.0)])] };
    let mesh = ObjMesh { vertices: vec![[0.0; 3]; 4], texture_coordinates: vec![], groups: vec![] };
    let faces = Faces { vertices: vec![vec![3, 1, 1], vec![0, 1, 3]], texture: vec![vec![], vec![]] };
    let opts = ModelOptions::new();
    let model = Figure::build(&opts, &mesh, &mesh.vertices, faces, &rig, &mut weights, 0.0, &Floats).unwrap();
    let r = BoneRegions::new(&model, 2, |w: &f64| *w >= 0.01, 0.0, &Floats, place);
    assert_eq!(r.partition.unique_ids, vec![0, 1, 3]);
    assert_eq!(r.partition.joint_vertex_sets, vec![vec![0, 1]]);
    assert_eq!(r.partition.vertex_joint_weights, vec![vec![0.5, 0.5]]);
    // Places among the three used vertices.
    assert_eq!(r.sample_idx, vec![0, 2]);
}

#[test]
fn keys_leave_out_the_excluded() {
    let labels = vec!["gender", "age", "height"];
    let keys = optim_keys(&labels, &vec!["age"]);
    assert_eq!(keys, vec!["gender", "height"]);
    assert_eq!(key_columns(&labels, &keys), vec![0, 2]);
    let weights = vec![("height".to_string(), 5.0)];
    assert_eq!(regularisation(&keys, &weights, 1.0), vec![1.0, 5.0]);
}

fn phenotype(n: usize) -> PhenotypeValues<Vec<f64>> {
    let v = || vec![0.5; n];
    PhenotypeValues {
        age: v(),
        gender: v(),
        muscle: v(),
        weight: v(),
        height: v(),
        proportions: v(),
        cupsize: v(),
        firmness: v(),
        african: v(),
        asian: v(),
        caucasian: v(),
    }
}

#[test]
fn each_label_is_perturbed_in_its_place() {
    assert_eq!(repeat_values(&vec![1, 2], 2, 3), Ok(vec![1, 1, 1, 2, 2, 2]));
    assert_eq!(repeat_values(&vec![1], 2, 2), Ok(vec![1, 1, 1, 1]));
    assert_eq!(repeat_values(&vec![1, 2], 3, 2), Err(BatchMismatch { len: 2, batch: 3 }));
    let labels = vec!["age", "height"];
    let many = repeat_phenotype(&phenotype(1), 2, 3).unwrap();
    let p = perturb_phenotype(many, &labels, 6, 0.25, &Floats).unwrap();
    assert_eq!(p.age, vec![0.5, 0.75, 0.5, 0.5, 0.75, 0.5]);
    assert_eq!(p.height, vec![0.5, 0.5, 0.75, 0.5, 0.5, 0.75]);
    assert_eq!(p.weight, vec![0.5; 6]);
    assert_eq!(
        perturb_phenotype(phenotype(2), &vec!["shoe"], 2, 0.25, &Floats).unwrap_err(),
        UnknownLabel { at: 0 }
    );
    assert_eq!(repeat_phenotype(&phenotype(2), 3, 2).unwrap_err(), BatchMismatch { len: 2, batch: 3 });
}

#[test]
fn deltas_move_keys_within_bounds() {
    let bounds = StepBounds { most: 0.2, low: 0.01, high: 0.99 };
    let mut p = phenotype(2);
    p.height = vec![0.9, 0.1];
    apply_phenotype_delta(
        &mut p,
        &vec![vec![0.1, 5.0], vec![-0.1, -5.0]],
        &vec!["age", "height"],
        bounds,
        &Floats,
    )
    .unwrap();
    assert_eq!(p.age, vec![0.6, 0.4]);
    assert_eq!(p.height, vec![0.99, 0.01]);
    assert_eq!(p.gender, vec![0.5, 0.5]);
    let e = apply_phenotype_delta(&mut p, &vec![vec![0.0, 0.0]; 2], &vec!["age", "shoe"], bounds, &Floats);
    assert_eq!(e, Err(UnknownLabel { at: 1 }));
}

#[test]
fn bones_follow_their_vertices() {
    let reference = vec![[0.0, 0.0, 0.0], [1.0, 0.0, 0.0], [0.0, 1.0, 0.0], [0.0, 0.0, 1.0]];
    let target: Vec<[f64; 3]> = reference.iter().map(|p| [p[0] + 1.0, p[1] - 2.0, p[2]]).collect();
    let r = register_bones(
        &reference,
        &target,
        1,
        4,
        &vec![vec![0, 1, 2, 3], vec![]],
        &vec![vec![0.25; 4], vec![]],
        0.0,
        1.0,
        &Floats,
    );
    let want = [[1.0, 0.0, 0.0, 1.0], [0.0, 1.0, 0.0, -2.0], [0.0, 0.0, 1.0, 0.0], [0.0, 0.0, 0.0, 1.0]];
    for i in 0..4 {
        for j in 0..4 {
            assert!((r[0][0][i][j] - want[i][j]).abs() < 1e-9);
            assert_eq!(r[0][1][i][j], if i == j { 1.0 } else { 0.0 });
        }
    }
}

#[test]
fn poses_are_cleaned() {
    let m = [[2.0, 0.0, 0.0, 5.0], [0.0, 2.0, 0.0, 6.0], [0.0, 0.0, 2.0, 7.0], [0.0, 0.0, 0.0, 1.0]];
    let r = sanitize_pose_parameters(&vec![vec![m]], 0.0, 1.0, &Floats);
    let want = [[1.0, 0.0, 0.0, 5.0], [0.0, 1.0, 0.0, 6.0], [0.0, 0.0, 1.0, 7.0], [0.0, 0.0, 0.0, 1.0]];
    for i in 0..4 {
        for j in 0..4 {
            assert!((r[0][0][i][j] - want[i][j]).abs() < 1e-12);
        }
    }
    let identity = [[1.0, 0.0, 0.0, 0.0], [0.0, 1.0, 0.0, 0.0], [0.0, 0.0, 1.0, 0.0], [0.0, 0.0, 0.0, 1.0]];
    let sets = vec![vec![1], vec![0], vec![]];
    let r = zero_translation_for_supported_joints(&vec![vec![m; 3]], &sets, 0.0, 1.0);
    assert_eq!(r[0][0], identity);
    assert_eq!(r[0][1][0], [2.0, 0.0, 0.0, 0.0]);
    assert_eq!(r[0][1][3], [0.0, 0.0, 0.0, 1.0]);
    assert_eq!(r[0][2], identity);
    assert_eq!(zero_translation_for_supported_joints(&r, &sets, 0.0, 1.0), r);
}

#[test]
fn slopes_come_from_perturbed_bodies() {
    // One element, two labels: the unchanged body first.
    let points = vec![
        vec![[0.0, 0.0, 0.0], [1.0, 1.0, 1.0]],
        vec![[9.0, 9.0, 9.0], [1.5, 1.0, 1.0]],
        vec![[9.0, 9.0, 9.0], [1.0, 1.0, 0.0]],
    ];
    let j = macro_jacobian(&points, &vec![1], 2, 1, &Floats, 2.0);
    assert_eq!(j, vec![vec![vec![1.0, 0.0], vec![0.0, 0.0], vec![0.0, -2.0]]]);
}

#[test]
fn solutions_are_kept_where_finite() {
    let jacobian = vec![
        vec![vec![1.0, 2.0, 3.0], vec![0.0, 9.0, 1.0]],
        vec![vec![0.0, 0.0, 0.0], vec![0.0, 0.0, 0.0]],
    ];
    let residual = vec![vec![10.0, 4.0], vec![0.0, 1.0]];
    let r = tikhonov_solve(&jacobian, &residual, &vec![2, 0], &vec![0.5, 0.25], 0.0, &Floats);
    // Slopes 3 and 1, then 1 and 0: 10.5 and 1.25 on the diagonal, 3 beside
    // it, and 34 on the right.
    assert_eq!(r, vec![vec![105.0 + 3.0 + 0.625 + 34.0, 0.0], vec![0.0, 0.0]]);
}

#[test]
fn the_least_error_wins() {
    let (ages, heights) = best_anchors(
        &vec![0.1, 0.2, 0.3],
        &vec![vec![3.0, 9.0], vec![1.0, f64::NAN], vec![1.0, f64::INFINITY]],
        &vec![vec![0.5, 0.6], vec![0.7, 0.8], vec![0.9, 1.0]],
        2,
        f64::INFINITY,
        0.0,
        0.5,
        &Floats,
    );
    assert_eq!(ages, vec![0.2, 0.1]);
    assert_eq!(heights, vec![0.7, 0.6]);
    let (ages, heights) = best_anchors(&vec![], &vec![], &vec![], 1, f64::INFINITY, 0.0, 0.5, &Floats);
    assert_eq!((ages, heights), (vec![0.0], vec![0.5]));
}

/// Bodies that are numbers: a pose moves by its root, and a phenotype by
/// itself.
struct Line {
    fails: bool,
}

impl FitOps for Line {
    type Pose = f64;
    type Root = f64;
    type Phenotype = f64;
    type Points = f64;
    type Body = f64;
    type Number = f64;
    type Failure = String;

    fn rest_pose(&self) -> Result<f64, String> {
        if self.fails {
            return Err("no pose".to_string());
        }
        Ok(0.0)
    }

    fn forward(&self, pose: &f64, phenotype: &f64, _mode: PoseParameterization) -> Result<f64, String> {
        Ok(pose + phenotype)
    }

    fn parameters(&self, body: &f64, _mode: PoseParameterization) -> Result<f64, String> {
        Ok(*body)
    }

    fn vertices(&self, body: &f64) -> Result<f64, String> {
        Ok(*body)
    }

    fn bone_poses(&self, body: &f64) -> Result<f64, String> {
        Ok(*body)
    }

    fn used(&self, points: &f64) -> Result<f64, String> {
        Ok(*points)
    }

    fn align(&self, from: &f64, to: &f64) -> Result<f64, String> {
        Ok(to - from)
    }

    fn with_root(&self, pose: &f64, root: &f64) -> Result<f64, String> {
        Ok(pose + root)
    }

    fn move_bones(&self, reference: &f64, target: &f64, bones: &f64) -> Result<f64, String> {
        Ok(bones + target - reference)
    }

    fn cleaned(&self, pose: &f64) -> Result<f64, String> {
        Ok(*pose)
    }

    fn in_place(&self, _pose: &f64) -> Result<f64, String> {
        Ok(0.0)
    }

    fn moved(&self, points: &f64, root: &f64) -> Result<f64, String> {
        Ok(points + root)
    }

    fn phenotype_step(
        &self,
        _plan: &Plan<f64>,
        _pose: &f64,
        phenotype: &f64,
        found: &f64,
        target: &f64,
    ) -> Result<f64, String> {
        Ok(phenotype + (target - found) / 2.0)
    }
}

impl Bounds<f64> for Line {
    fn less(&self, a: f64, b: f64) -> bool {
        a < b
    }
}

impl AnchorOps<f64> for Line {
    fn at_age(&self, age: f64) -> Result<f64, String> {
        Ok(age)
    }

    fn at_ages(&self, ages: &Vec<f64>, heights: &Vec<f64>) -> Result<f64, String> {
        Ok(ages[0] + heights[0])
    }

    fn judged(&self, fit: &FitResult<f64, f64, f64>, target: &f64, batch: usize) -> Result<Judged<f64>, String> {
        if batch > 1 {
            return Ok(Judged { errors: vec![], heights: vec![] });
        }
        Ok(Judged { errors: vec![(fit.phenotype - target).abs()], heights: vec![0.0] })
    }
}

const MODE: PoseParameterization = PoseParameterization::RootRelativeWorld;

#[test]
fn without_keys_the_phenotype_stays() {
    let plan = Plan { keys: vec![], most: None };
    let r = fit(&Line { fails: false }, &10.0, 3.0, &plan, 4, MODE).unwrap();
    assert_eq!(r.phenotype, 3.0);
    assert!(matches!(fit(&Line { fails: true }, &10.0, 3.0, &plan, 4, MODE), Err(e) if e == "no pose"));
}

#[test]
fn the_first_alignment_meets_the_target() {
    let plan = Plan { keys: vec!["age"], most: None };
    let r = fit(&Line { fails: false }, &10.0, 3.0, &plan, 0, MODE).unwrap();
    assert_eq!((r.vertices, r.phenotype), (10.0, 3.0));
}

#[test]
fn bones_are_registered_in_place() {
    let (pose, found) = jointwise_registration(&Line { fails: false }, &4.0, &10.0, &4.0, &3.0).unwrap();
    // Moved by six, posed at rest, and aligned again.
    assert_eq!((pose, found), (10.0, 13.0));
}

#[test]
fn the_search_ends_at_the_best_age() {
    let plan = Plan { keys: vec![], most: None };
    let last = Plan { keys: vec![], most: Some(0.1) };
    let ops = Line { fails: false };
    let r = fit_with_age_anchor_search(
        &ops,
        &0.4,
        &vec![0.0, 0.3, 0.9],
        &plan,
        &last,
        1,
        MODE,
        1,
        f64::INFINITY,
        0.0,
        0.5,
    )
    .unwrap();
    assert_eq!(r.phenotype, 0.3);
    let e = fit_with_age_anchor_search(
        &ops,
        &0.4,
        &vec![0.0],
        &plan,
        &last,
        1,
        MODE,
        2,
        f64::INFINITY,
        0.0,
        0.5,
    );
    assert!(matches!(e, Err(SearchError::Batch)));
    let e = fit_with_age_anchor_search(
        &Line { fails: true },
        &0.4,
        &vec![0.0],
        &plan,
        &last,
        1,
        MODE,
        1,
        f64::INFINITY,
        0.0,
        0.5,
    );
    assert!(matches!(e, Err(SearchError::Step(s)) if s == "no pose"));
}
