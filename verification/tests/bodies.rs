use anny_rs::face_segmentation::{face_centre, sample_face_colors, PixelOps, SegmentationError};
use anny_rs::data::obj::{ObjGroup, ObjMesh};
use anny_rs::kinematics::bone_poses::EndpointOps;
use anny_rs::models::alternative::{alternative_topology, serves, RetopologyError};
use anny_rs::models::blend_shapes::{
    change_path, load_all, shape_plan, stack_shapes, MacrodetailsError, Newborn, ShapePlan, Targets,
};
use anny_rs::models::body::{BodySources, Measures};
use anny_rs::models::forward::{ForwardError, Numbers, ShapeError};
use anny_rs::models::full_model::{Model, ModelError, ModelOptions, SkinningMethod};
use anny_rs::models::macrodetails::{macrodetail_targets, set_mask, PlannedTarget, TargetCategory, TargetGroup};
use anny_rs::models::pose::PoseParameterization;
use anny_rs::models::retopology::interpolate_topology;
use anny_rs::models::rig::{CoordinateRegressorJson, RigBoneJson, RigError, WeightsJson};
use anny_rs::parameters_regressor::body_fit::{BodyFit, FitFailure};
use anny_rs::parameters_regressor::fitting::BoneOps;
use anny_rs::parameters_regressor::regressor::broadcast_phenotype;
use anny_rs::parameters_regressor::schedule::FitOps;
use anny_rs::parameters_regressor::{BoneRegions, Regressor, RegressorOptions, SolveOps, StepBounds};
use anny_rs::phenotype::rows::CountOps;
use anny_rs::phenotype::{BatchMismatch, CoefficientError, PhenotypeAnchors, PhenotypeValues};
use anny_rs::registration::proper::FactorOps;
use anny_rs::registration::RegistrationOps;
use anny_rs::rotation::{rigid_to_homogeneous, rotvec_to_rotmat, AngleOps, RotationOps};
use anny_rs::scalar::{Arithmetic, Bounds, Division, Lengths, Signs};
use anny_rs::skinning::{MotionOps, SkinError};
use anny_rs::utils::mean::MeanOps;
use anny_rs::utils::mesh::SearchOps;
use anny_rs::utils::triangle::NearestOps;

type Matrix = [[f64; 4]; 4];

#[derive(Clone, Copy)]
struct Floats;

impl Arithmetic<f64> for Floats {
    fn plus(&self, a: f64, b: f64) -> f64 {
        a + b
    }

    fn minus(&self, a: f64, b: f64) -> f64 {
        a - b
    }

    fn times(&self, a: f64, b: f64) -> f64 {
        a * b
    }

    fn negative(&self, a: f64) -> f64 {
        -a
    }
}

impl Division<f64> for Floats {
    fn quotient(&self, a: f64, b: f64) -> f64 {
        a / b
    }

    fn undefined(&self, a: f64) -> bool {
        a.is_nan()
    }
}

impl Bounds<f64> for Floats {
    fn less(&self, a: f64, b: f64) -> bool {
        a < b
    }
}

impl Signs<f64> for Floats {
    fn positive(&self, a: f64) -> bool {
        a > 0.0
    }
}

impl Lengths<f64> for Floats {
    fn length(&self, v: &[f64; 3]) -> f64 {
        (v[0] * v[0] + v[1] * v[1] + v[2] * v[2]).sqrt()
    }
}

impl MeanOps<f64> for Floats {
    fn over(&self, a: f64, n: usize) -> f64 {
        a / n as f64
    }

    fn millimeters(&self, a: f64) -> f64 {
        a * 1000.0
    }
}

impl AngleOps<f64> for Floats {
    fn not_zero(&self, a: f64) -> f64 {
        a.max(1e-30)
    }

    fn cosine(&self, angle: f64) -> f64 {
        angle.cos()
    }

    fn sine(&self, angle: f64) -> f64 {
        angle.sin()
    }
}

impl EndpointOps<f64> for Floats {
    fn arc(&self, height: f64, width: f64) -> f64 {
        height.atan2(width)
    }

    fn near_one(&self, a: f64) -> bool {
        (a - 1.0).abs() < 0.1
    }
}

impl RotationOps<f64> for Floats {
    fn doubled_root(&self, a: f64) -> f64 {
        a.sqrt() * 2.0
    }

    fn quarter(&self, a: f64) -> f64 {
        0.25 * a
    }
}

impl MotionOps<f64> for Floats {
    fn halved(&self, a: f64) -> f64 {
        0.5 * a
    }

    fn doubled(&self, a: f64) -> f64 {
        2.0 * a
    }

    fn root(&self, a: f64) -> f64 {
        a.sqrt()
    }

    fn not_negative(&self, a: f64) -> bool {
        a >= 0.0
    }
}

fn matrix3(m: &[[f64; 3]; 3]) -> nalgebra::Matrix3<f64> {
    nalgebra::Matrix3::from_fn(|i, j| m[i][j])
}

fn rows3(m: &nalgebra::Matrix3<f64>) -> [[f64; 3]; 3] {
    let mut r = [[0.0; 3]; 3];
    for i in 0..3 {
        for j in 0..3 {
            r[i][j] = m[(i, j)];
        }
    }
    r
}

impl FactorOps<f64> for Floats {
    fn factors(&self, m: &[[f64; 3]; 3]) -> ([[f64; 3]; 3], [[f64; 3]; 3]) {
        let svd = matrix3(m).svd(true, true);
        (rows3(&svd.u.unwrap()), rows3(&svd.v_t.unwrap()))
    }

    fn sign(&self, a: f64) -> f64 {
        a.signum()
    }
}

impl RegistrationOps<f64> for Floats {
    fn reciprocal(&self, a: f64) -> f64 {
        1.0 / a
    }
}

impl BoneOps<f64> for Floats {
    fn doubled(&self, a: f64) -> f64 {
        2.0 * a
    }
}

impl SolveOps<f64> for Floats {
    fn solved(&self, matrix: &Vec<Vec<f64>>, right: &Vec<f64>) -> Option<Vec<f64>> {
        let n = right.len();
        let a = nalgebra::DMatrix::from_fn(n, n, |i, j| matrix[i][j]);
        let y = nalgebra::DVector::from_fn(n, |i, _| right[i]);
        let x = a.lu().solve(&y)?;
        Some(x.iter().copied().collect())
    }

    fn finite(&self, a: f64) -> bool {
        a.is_finite()
    }
}

impl NearestOps<f64> for Floats {
    fn at_most(&self, a: f64, b: f64) -> bool {
        a <= b
    }
}

impl SearchOps<f64> for Floats {
    fn root(&self, a: f64) -> f64 {
        a.sqrt()
    }
}

fn numbers() -> Numbers<'static, Floats, f64> {
    Numbers { ops: &Floats, third: 1.0 / 3.0, zero: 0.0, one: 1.0 }
}

/// The corners of a box, two units tall: y is up in the files.
fn corners() -> Vec<[f64; 3]> {
    (0..8).map(|i| [(i % 2) as f64, 2.0 * (i / 4) as f64, (i / 2 % 2) as f64]).collect()
}

fn at_vertices(vs: &[u32]) -> CoordinateRegressorJson {
    CoordinateRegressorJson {
        strategy: "MEAN".to_string(),
        cube_name: None,
        vertex_index: None,
        vertex_indices: Some(vs.to_vec()),
    }
}

/// The offsets that lift the top of the box.
fn lift(by: f64) -> Vec<[f64; 3]> {
    (0..8).map(|i| [0.0, if i >= 4 { by } else { 0.0 }, 0.0]).collect()
}

/// The offsets that move one corner along x.
fn nudge(corner: usize, by: f64) -> Vec<[f64; 3]> {
    (0..8).map(|i| [if i == corner { by } else { 0.0 }, 0.0, 0.0]).collect()
}

fn planned(path: &str, gates: &Vec<&str>, newborn: bool, optional: bool) -> PlannedTarget {
    PlannedTarget { path: path.to_string(), mask: set_mask(gates), newborn, optional }
}

fn changes(name: &str, positive: &str, negative: &str) -> TargetGroup {
    let opposites = vec![
        ("positive-unsided".to_string(), positive.to_string()),
        ("negative-unsided".to_string(), negative.to_string()),
    ];
    TargetGroup { name: name.to_string(), categories: vec![TargetCategory { opposites: Some(opposites) }] }
}

fn catalogue() -> Vec<TargetGroup> {
    vec![
        changes("head", "chin-incr", "chin-decr"),
        changes("genitals", "penis-length-incr", "penis-length-decr"),
    ]
}

/// The first two targets that are not of newborns.
fn grown() -> [usize; 2] {
    let all = macrodetail_targets();
    let mut at = (0..all.len()).filter(|i| !all[*i].newborn);
    [at.next().unwrap(), at.next().unwrap()]
}

fn sources() -> BodySources<f64> {
    let first = grown();
    let faces = vec![vec![0, 1, 3, 2], vec![4, 5, 7, 6], vec![0, 1, 5, 4], vec![2, 3, 7, 6]];
    let body = ObjGroup { face_vertex_indices: faces.clone(), face_texture_coordinate_indices: faces };
    let bone = |name: &str, parent: &str, head: &[u32], tail: &[u32]| {
        let b = RigBoneJson {
            head: at_vertices(head),
            tail: at_vertices(tail),
            roll: 0.0,
            parent: parent.to_string(),
        };
        (name.to_string(), b)
    };
    let mut spine: Vec<(u32, f64)> = (0..4).map(|v| (v, 1.0)).collect();
    spine.extend((4..8).map(|v| (v, 0.25)));
    BodySources {
        mesh: ObjMesh {
            vertices: corners(),
            texture_coordinates: vec![[0.0, 0.0]; 8],
            groups: vec![("body".to_string(), body)],
        },
        rig: vec![
            bone("root", "", &[0, 1, 2, 3], &[4, 5, 6, 7]),
            bone("neck", "root", &[4, 5, 6, 7], &[7]),
        ],
        weights: WeightsJson {
            weights: vec![
                ("root".to_string(), spine),
                ("neck".to_string(), (4..8).map(|v| (v, 0.75)).collect()),
            ],
        },
        targets: Targets {
            offsets: macrodetail_targets()
                .iter()
                .enumerate()
                .map(|(i, t)| match i {
                    _ if i == first[0] => Some(lift(1.0)),
                    _ if i == first[1] => Some(nudge(1, 0.5)),
                    _ if t.optional => None,
                    _ => Some(lift(0.0)),
                })
                .collect(),
            groups: catalogue(),
            poles: vec![(nudge(7, 1.0), nudge(7, -0.5))],
        },
    }
}

impl CountOps<f64> for Floats {
    fn number(&self, n: usize) -> f64 {
        n as f64
    }
}

fn anchors() -> PhenotypeAnchors<f64> {
    PhenotypeAnchors::build(-1.0 / 3.0, 0.0, 1.0, &Floats)
}

#[test]
fn anchors_are_evenly_spaced() {
    let a = anchors();
    assert_eq!(a.age.len(), 5);
    for i in 0..5 {
        assert!((a.age[i] - (i as f64 - 1.0) / 3.0).abs() < 1e-12);
    }
    assert_eq!(a.gender, vec![0.0, 1.0]);
    assert_eq!(a.muscle, vec![0.0, 0.5, 1.0]);
    assert_eq!((a.weight, a.height, a.proportions), (vec![0.0, 0.5, 1.0], vec![0.0, 1.0], vec![0.0, 1.0]));
    assert_eq!((a.cupsize, a.firmness), (vec![0.0, 0.5, 1.0], vec![0.0, 0.5, 1.0]));
}

fn measures() -> Measures<f64> {
    let newborn = Newborn { scaling: [0.5, 1.0, 2.0], factor: 2.0 };
    Measures { scale: 1.0, newborn, zero: 0.0, one: 1.0 }
}

fn whole(opts: &ModelOptions) -> Model<f64> {
    Model::build(opts, &sources(), anchors(), &measures(), &Floats).unwrap()
}

/// Two shapes, one gated by height and one by muscle, and the local ones.
fn body_with(opts: &ModelOptions) -> Model<f64> {
    let mut m = whole(opts);
    let gated = m.stacked_phenotype_blend_shapes_mask.len();
    let [a, b] = grown();
    for shapes in [&mut m.blendshapes, &mut m.bone_heads_blendshapes, &mut m.bone_tails_blendshapes] {
        *shapes = [a, b, gated, gated + 1].iter().map(|i| shapes[*i].clone()).collect();
    }
    m.stacked_phenotype_blend_shapes_mask = vec![set_mask(&vec!["maxheight"]), set_mask(&vec!["maxmuscle"])];
    m
}

fn body() -> Model<f64> {
    body_with(&ModelOptions::new())
}

fn near(a: &Vec<[f64; 3]>, b: &Vec<[f64; 3]>, tolerance: f64) {
    assert_eq!(a.len(), b.len());
    for (p, q) in a.iter().zip(b) {
        for c in 0..3 {
            assert!((p[c] - q[c]).abs() < tolerance, "{:?} {:?}", p, q);
        }
    }
}

fn turn(rotvec: [f64; 3], translation: [f64; 3]) -> Matrix {
    rigid_to_homogeneous(&rotvec_to_rotmat(&rotvec, 0.0, 1.0, &Floats), &translation, 0.0, 1.0)
}

fn bent() -> Vec<Vec<Matrix>> {
    vec![vec![turn([0.1, -0.4, 0.2], [1.0, 2.0, 3.0]), turn([0.0, 0.3, 0.5], [0.0, 0.0, 0.0])]]
}

#[test]
fn bodies_stand_upright() {
    let model = body();
    assert_eq!((model.bone_count(), model.vertex_count()), (2, 8));
    // The height of the files is the third coordinate of the model.
    assert_eq!(model.figure.template_vertices[6], [0.0, -1.0, 2.0]);
    assert_eq!(model.template_bone_heads, vec![[0.5, -0.5, 0.0], [0.5, -0.5, 2.0]]);
    assert_eq!(model.template_bone_tails, vec![[0.5, -0.5, 2.0], [1.0, -1.0, 2.0]]);
    assert_eq!(model.blendshapes.len(), 4);
    assert_eq!(model.local_change_labels, vec!["chin-incr".to_string()]);
    assert_eq!(model.blendshapes[0][4], [0.0, 0.0, 1.0]);
    assert_eq!(model.bone_heads_blendshapes[0], vec![[0.0, 0.0, 0.0], [0.0, 0.0, 1.0]]);
}

#[test]
fn shapes_follow_the_plan() {
    let model = whole(&ModelOptions::new());
    // The gated shapes, those without a file left out, and a pair of local ones.
    assert_eq!(model.stacked_phenotype_blend_shapes_mask.len(), 408);
    assert_eq!(model.blendshapes.len(), 410);
    for (mask, target) in model.stacked_phenotype_blend_shapes_mask.iter().zip(macrodetail_targets()) {
        assert_eq!(*mask, target.mask);
    }
    assert_eq!(model.local_change_labels, vec!["chin-incr".to_string()]);
    let mut opts = ModelOptions::new();
    opts.include_genital_morphs = true;
    let mut s = sources();
    s.targets.poles = vec![(nudge(3, 1.0), nudge(3, -0.5)), (nudge(7, 1.0), nudge(7, -0.5))];
    let model = Model::build(&opts, &s, anchors(), &measures(), &Floats).unwrap();
    assert_eq!(model.local_change_labels, vec!["penis-length-incr".to_string(), "chin-incr".to_string()]);
    let plan = shape_plan(&catalogue(), true);
    assert_eq!((plan.planned.len(), plan.changes.len()), (651, 2));
}

#[test]
fn newborn_shapes_are_scaled() {
    let template = vec![[2.0, 4.0, 8.0]];
    let plan = ShapePlan { planned: vec![planned("n", &vec!["newborn"], true, false)], changes: vec![] };
    let targets = Targets { offsets: vec![Some(vec![[1.0, 2.0, 4.0]])], groups: vec![], poles: vec![] };
    let world = [[1.0, 0.0, 0.0], [0.0, 1.0, 0.0], [0.0, 0.0, 1.0]];
    let r = stack_shapes(&plan, &targets, &template, &world, &measures().newborn, 1.0, &Floats).unwrap();
    assert_eq!((r.n_macrodetails, r.local_change_labels.len()), (1, 0));
    let plain = stack_shapes(
        &ShapePlan { planned: vec![planned("n", &vec!["newborn"], false, false)], changes: vec![] },
        &targets,
        &template,
        &world,
        &measures().newborn,
        1.0,
        &Floats,
    )
    .unwrap();
    assert_eq!(plain.blendshapes, vec![vec![[1.0, 2.0, 4.0]]]);
    // A quarter of the template less along x, a half more along z.
    assert_eq!(r.blendshapes, vec![vec![[0.5 - 0.5, 2.0, 8.0 + 4.0]]]);
}

#[test]
fn a_missing_target_stops_the_build() {
    let mut s = sources();
    s.targets.offsets[2] = None;
    match Model::build(&ModelOptions::new(), &s, anchors(), &measures(), &Floats) {
        Err(ModelError::Macrodetails(MacrodetailsError::Missing(path))) => {
            assert_eq!(path, macrodetail_targets()[2].path)
        }
        other => panic!("{:?}", other),
    }
    let world = [[1.0, 0.0, 0.0], [0.0, 1.0, 0.0], [0.0, 0.0, 1.0]];
    let r = load_all(&s.targets, false, &corners(), &world, &measures().newborn, 1.0, &Floats);
    assert!(r.is_err());
    let mut opts = ModelOptions::new();
    opts.bones_to_remove = vec!["tail".to_string()];
    let r = Model::build(&opts, &sources(), anchors(), &measures(), &Floats);
    assert!(matches!(r, Err(ModelError::Rig(RigError::UnknownBoneToRemove(n))) if n == "tail"));
    assert_eq!(change_path("head", "chin-incr"), "mpfb2/targets/head/chin-incr.target.gz");
}

#[test]
fn coefficients_follow_the_phenotype() {
    let model = body();
    let mut values = PhenotypeValues::defaults(0.5);
    values.height = vec![0.25, 1.0];
    values.muscle = vec![0.75];
    let r = model.phenotype_coefficients(&values, &numbers()).unwrap();
    assert_eq!(r, vec![vec![0.25, 0.5, 0.0, 0.0], vec![1.0, 0.5, 0.0, 0.0]]);
    let changes = vec![("chin-incr".to_string(), vec![0.5, -2.0]), ("no-such".to_string(), vec![1.0])];
    let r = model.phenotype_coefficients_with_local_changes(&values, &changes, &numbers()).unwrap();
    assert_eq!(r, vec![vec![0.25, 0.5, 0.5, 0.0], vec![1.0, 0.5, 0.0, 2.0]]);
    values.weight = vec![0.5; 3];
    let e = model.phenotype_coefficients(&values, &numbers());
    assert!(matches!(
        e,
        Err(ShapeError::Coefficients(CoefficientError::Batch(BatchMismatch { len: 2, batch: 3 })))
    ));
}

#[test]
fn bodies_at_rest_keep_their_vertices() {
    let mut values = PhenotypeValues::defaults(0.5);
    values.height = vec![0.0, 1.0];
    for method in [SkinningMethod::Lbs, SkinningMethod::Dqs] {
        let mut opts = ModelOptions::new();
        opts.skinning_method = method;
        let model = body_with(&opts);
        let at_rest = PoseParameterization::RestRelative;
        let out = model.forward(None, &values, Some(at_rest), &numbers()).unwrap();
        assert_eq!(out.rest_vertices[0][4], [0.0, 0.0, 2.0]);
        assert_eq!(out.rest_vertices[1][4], [0.0, 0.0, 3.0]);
        assert_eq!(out.parameterization, at_rest);
        // Relative to the world, the root stands at the origin.
        let world = model.forward(None, &values, None, &numbers()).unwrap();
        assert_eq!(world.parameterization, PoseParameterization::RootRelativeWorld);
        for b in 0..2 {
            near(&out.vertices[b], &out.rest_vertices[b], 1e-9);
            let moved: Vec<[f64; 3]> =
                out.rest_vertices[b].iter().map(|p| [p[0] - 0.5, p[1] + 0.5, p[2]]).collect();
            near(&world.vertices[b], &moved, 1e-9);
        }
    }
}

#[test]
fn a_moved_root_moves_the_body() {
    let pose = vec![vec![turn([0.0, 0.0, std::f64::consts::FRAC_PI_2], [5.0, 0.0, 0.0]), turn([0.0; 3], [0.0; 3])]];
    let values = PhenotypeValues::defaults(0.0);
    for method in [SkinningMethod::Lbs, SkinningMethod::Dqs] {
        let mut opts = ModelOptions::new();
        opts.skinning_method = method;
        let model = body_with(&opts);
        let out = model
            .forward(Some(&pose), &values, Some(PoseParameterization::RootRelativeWorld), &numbers())
            .unwrap();
        // About the root, a quarter turn, and off along x.
        let want: Vec<[f64; 3]> =
            out.rest_vertices[0].iter().map(|p| [5.0 - (p[1] + 0.5), p[0] - 0.5, p[2]]).collect();
        near(&out.vertices[0], &want, 1e-9);
    }
}

#[test]
fn parameters_pose_the_same_body_again() {
    let modes = [
        PoseParameterization::RestRelative,
        PoseParameterization::RootRelative,
        PoseParameterization::RootRelativeWorld,
        PoseParameterization::Absolute,
    ];
    let values = PhenotypeValues::defaults(0.5);
    for method in [SkinningMethod::Lbs, SkinningMethod::Dqs] {
        let mut opts = ModelOptions::new();
        opts.skinning_method = method;
        let model = body_with(&opts);
        for from in modes {
            let out = model.forward(Some(&bent()), &values, Some(from), &numbers()).unwrap();
            for to in modes {
                let params = out.pose_parameterization(to, 0.0, 1.0, &Floats);
                let again = model.forward(Some(&params), &values, Some(to), &numbers()).unwrap();
                near(&again.vertices[0], &out.vertices[0], 1e-9);
            }
        }
    }
}

#[test]
fn an_empty_batch_has_no_bodies() {
    let mut values = PhenotypeValues::defaults(0.5);
    for list in [
        &mut values.age,
        &mut values.gender,
        &mut values.muscle,
        &mut values.weight,
        &mut values.height,
        &mut values.proportions,
        &mut values.cupsize,
        &mut values.firmness,
        &mut values.african,
        &mut values.asian,
        &mut values.caucasian,
    ] {
        list.clear();
    }
    assert!(matches!(
        body().forward(None, &values, None, &numbers()),
        Err(ForwardError::Skin(SkinError::Batch { have: 0, want: 1 }))
    ));
}

#[test]
fn batches_are_made_of_single_bodies() {
    let model = body();
    let mut values = PhenotypeValues::defaults(0.5);
    values.height = vec![0.1, 0.9];
    let poses = vec![bent()[0].clone(), vec![turn([0.0; 3], [0.0; 3]); 2]];
    let both = model.forward(Some(&poses), &values, None, &numbers()).unwrap();
    for b in 0..2 {
        let mut one = PhenotypeValues::defaults(0.5);
        one.height = vec![values.height[b]];
        let alone = model.forward(Some(&vec![poses[b].clone()]), &one, None, &numbers()).unwrap();
        assert_eq!(alone.vertices[0], both.vertices[b]);
        assert_eq!(alone.blendshape_coeffs[0], both.blendshape_coeffs[b]);
    }
}

#[test]
fn local_changes_reach_the_vertices() {
    let model = body();
    let values = PhenotypeValues::defaults(0.5);
    let plain = model.forward(None, &values, None, &numbers()).unwrap();
    let with = |label: &str, v: f64| {
        let changes = vec![(label.to_string(), vec![v])];
        model.forward_with_local_changes(None, &values, &changes, None, &numbers()).unwrap().rest_vertices
    };
    assert_eq!(with("no-such", 1.0), plain.rest_vertices);
    assert_eq!(with("chin-incr", 0.0), plain.rest_vertices);
    let more = with("chin-incr", 1.0);
    assert_eq!(more[0][7][0], plain.rest_vertices[0][7][0] + 1.0);
    assert_eq!(more[0][6], plain.rest_vertices[0][6]);
    assert_eq!(with("chin-incr", -1.0)[0][7][0], plain.rest_vertices[0][7][0] - 0.5);
    let long = vec![("chin-incr".to_string(), vec![0.0; 3])];
    match model.forward_with_local_changes(None, &values, &long, None, &numbers()) {
        Err(ForwardError::Shape(ShapeError::LocalChange(e))) => {
            assert_eq!((e.label.as_str(), e.len, e.batch), ("chin-incr", 3, 1))
        }
        other => panic!("{:?}", other),
    }
}

#[test]
fn misshapen_poses_are_refused() {
    let model = body();
    let values = PhenotypeValues::defaults(0.5);
    let two = vec![bent()[0].clone(), bent()[0].clone(), bent()[0].clone()];
    let mut wide = PhenotypeValues::defaults(0.5);
    wide.age = vec![0.5; 2];
    let r = model.forward(Some(&two), &wide, None, &numbers());
    assert!(matches!(r, Err(ForwardError::Batch { have: 3, want: 2 })));
    let r = model.forward(Some(&vec![vec![bent()[0][0]]]), &values, None, &numbers());
    assert!(matches!(r, Err(ForwardError::BoneCount { have: 1, want: 2 })));
}

#[test]
fn other_meshes_carry_the_shapes_over() {
    let r = interpolate_topology(
        body(),
        &vec![[0.5, 0.5, 0.0], [0.0, 0.0, 1.0]],
        &vec![[4, 5, 6], [0, 1, 7]],
        &vec![[0, 1, 0]],
        0.0,
        &Floats,
    );
    assert_eq!((r.vertex_count(), r.bone_count()), (2, 2));
    assert_eq!(r.figure.template_vertices, vec![[0.5, 0.0, 2.0], [1.0, -1.0, 2.0]]);
    assert_eq!(r.blendshapes[0], vec![[0.0, 0.0, 1.0]; 2]);
    assert_eq!(r.blendshapes[2], vec![[0.0, 0.0, 0.0], [1.0, 0.0, 0.0]]);
    let mut values = PhenotypeValues::defaults(0.0);
    values.height = vec![1.0];
    let out = r.forward(None, &values, Some(PoseParameterization::RestRelative), &numbers()).unwrap();
    near(&out.vertices[0], &vec![[0.5, 0.0, 3.0], [1.0, -1.0, 3.0]], 1e-9);
}

/// A mesh of one triangle, given in the axes of the files.
fn triangle(at: [[f64; 3]; 3], face: Vec<u32>) -> ObjMesh<f64> {
    let group = ObjGroup {
        face_vertex_indices: vec![face.clone()],
        face_texture_coordinate_indices: vec![face],
    };
    ObjMesh { vertices: at.to_vec(), texture_coordinates: vec![], groups: vec![("noname".to_string(), group)] }
}

#[test]
fn other_meshes_follow_the_nearest_triangle() {
    let corner = corners();
    let default = triangle([corner[0], corner[1], corner[2]], vec![0, 1, 2]);
    let other = triangle([[0.0, 0.005, 0.0], [1.0, 0.0, 0.0], [0.5, 0.0, 0.5]], vec![2, 1, 0]);
    let go = |default: &ObjMesh<f64>, other: &ObjMesh<f64>| {
        alternative_topology(body(), default, other, 1.5e-2, f64::INFINITY, 0.0, 1.0, &Floats)
    };
    assert!(serves(&default) && serves(&other));
    let r = go(&default, &other).unwrap();
    assert_eq!(r.figure.faces, vec![vec![2, 1, 0]]);
    near(&r.figure.template_vertices, &vec![[0.0, 0.0, 0.0], [1.0, 0.0, 0.0], [0.5, -0.5, 0.0]], 1e-12);
    assert_eq!(r.blendshapes[1][1], [0.5, 0.0, 0.0]);
    let far = triangle([[0.0, 0.02, 0.0], [1.0, 0.0, 0.0], [0.5, 0.0, 0.5]], vec![0, 1, 2]);
    match go(&default, &far) {
        Err(RetopologyError::AltTopologyTooFar(d)) => assert!((d - 0.02).abs() < 1e-12),
        _ => panic!("a mesh too far away"),
    }
    let mut empty = other.clone();
    empty.groups = vec![];
    assert!(matches!(go(&empty, &other), Err(RetopologyError::DefaultMissingGroup)));
    assert!(matches!(go(&default, &empty), Err(RetopologyError::AltTopologyMissingGroup)));
    let mut bare = default.clone();
    bare.groups[0].1.face_vertex_indices = vec![];
    assert!(matches!(go(&bare, &other), Err(RetopologyError::AltTopologyTooFar(d)) if d == f64::INFINITY));
    let mut many = default.clone();
    many.vertices = vec![corner[0]; 6];
    many.vertices.extend([corner[0], corner[1], corner[0], corner[2]]);
    many.groups[0].1.face_vertex_indices = vec![vec![6, 7, 9]];
    assert!(matches!(go(&many, &other), Err(RetopologyError::BeyondReference)));
    many.groups[0].1.face_vertex_indices = vec![vec![6, 7, 10]];
    assert!(!serves(&many));
}

fn options() -> RegressorOptions<f64> {
    RegressorOptions {
        eps: 0.1,
        n_points: 5000,
        max_n_iters: 5,
        bounds: StepBounds { most: 0.2, low: 0.01, high: 0.99 },
        gentle: 0.1,
        reg_weights: vec![("height".to_string(), 1e-3), ("age".to_string(), 10.0)],
        middle: 0.5,
        start_age: 0.7,
    }
}

fn place(i: usize, n: usize, of: usize) -> usize {
    let frac = i as f64 / (n.max(1) - 1).max(1) as f64;
    (frac * (of - 1) as f64).round() as usize
}

fn apart(a: &Vec<[f64; 3]>, b: &Vec<[f64; 3]>) -> f64 {
    let sum: f64 = a
        .iter()
        .zip(b)
        .map(|(p, q)| (0..3).map(|c| (p[c] - q[c]).powi(2)).sum::<f64>().sqrt())
        .sum();
    sum / a.len() as f64 * 1000.0
}

const HELD: [&str; 5] = ["gender", "age", "muscle", "weight", "proportions"];

#[test]
fn fits_recover_pose_and_height() {
    let model = body();
    let mut values = PhenotypeValues::defaults(0.5);
    values.age = vec![0.7];
    values.height = vec![0.8];
    let root = vec![vec![turn([0.0, 0.2, 0.6], [1.0, -2.0, 0.5]), turn([0.0; 3], [0.0; 3])]];
    let target = model.forward(Some(&root), &values, None, &numbers()).unwrap().vertices;
    let n = numbers();
    let o = options();
    let regressor = Regressor::new(&model, &o, &n, |w: &f64| *w >= 0.01, place);
    let fitted = regressor.fit(&target, &HELD.to_vec()).unwrap();
    assert!((fitted.phenotype.height[0] - 0.8).abs() < 0.05, "{:?}", fitted.phenotype.height);
    assert_eq!((fitted.phenotype.age[0], fitted.phenotype.muscle[0]), (0.7, 0.5));
    assert!(apart(&fitted.vertices[0], &target[0]) < 30.0);
    let again = model.forward(Some(&fitted.pose_parameters), &fitted.phenotype, None, &n).unwrap();
    near(&again.vertices[0], &fitted.vertices[0], 1e-6);
}

#[test]
fn steps_are_bounded_and_starts_are_given() {
    let model = body();
    let mut values = PhenotypeValues::defaults(0.5);
    values.height = vec![1.0];
    let target = model.forward(None, &values, None, &numbers()).unwrap().vertices;
    let n = numbers();
    let mut o = options();
    o.max_n_iters = 1;
    let regressor = Regressor::new(&model, &o, &n, |w: &f64| *w >= 0.01, place);
    let mut start = PhenotypeValues::defaults(0.25);
    start.height = vec![0.125];
    let plain = regressor.fit_inner(&target, &HELD.to_vec(), Some(&start), None).unwrap();
    let gentle = regressor.fit_inner(&target, &HELD.to_vec(), Some(&start), Some(0.1)).unwrap();
    let moved = (plain.phenotype.height[0] - 0.125).abs();
    assert!(moved <= 0.2 + 1e-12 && moved > 0.0);
    assert!((gentle.phenotype.height[0] - 0.125).abs() <= 0.1 + 1e-12);
    assert_eq!(plain.phenotype.weight, vec![0.25]);
    start.weight = vec![0.5; 3];
    match regressor.fit_inner(&target, &HELD.to_vec(), Some(&start), None) {
        Err(FitFailure::Phenotype(e)) => assert_eq!(e, BatchMismatch { len: 3, batch: 1 }),
        _ => panic!("a phenotype for another batch"),
    }
    assert_eq!(broadcast_phenotype(&PhenotypeValues::defaults(0.5), 2).unwrap().age, vec![0.5, 0.5]);
}

#[test]
fn the_age_search_is_no_worse() {
    let model = body();
    let mut values = PhenotypeValues::defaults(0.5);
    values.height = vec![0.3, 0.7];
    let target = model.forward(None, &values, None, &numbers()).unwrap().vertices;
    let n = numbers();
    let o = options();
    let regressor = Regressor::new(&model, &o, &n, |w: &f64| *w >= 0.01, place);
    let single = regressor.fit(&target, &vec![]).unwrap();
    let search = regressor.fit_with_age_anchor_search(&target, &vec![0.0, 0.5, 1.0], f64::INFINITY).unwrap();
    assert_eq!(search.phenotype.height.len(), 2);
    // The last fit keeps the best ages, with the heights that their trials ended with.
    for b in 0..2 {
        let age = search.phenotype.age[b];
        assert!([0.0, 0.5, 1.0].contains(&age));
        let mut start = PhenotypeValues::defaults(0.5);
        start.age = vec![age; 2];
        let trial = regressor.fit_inner(&target, &vec!["age"], Some(&start), None).unwrap();
        assert_eq!(search.phenotype.height[b], trial.phenotype.height[b]);
    }
    for b in 0..2 {
        assert!(apart(&search.vertices[b], &target[b]) <= apart(&single.vertices[b], &target[b]) + 1.0);
    }
}

#[test]
fn misshapen_targets_are_refused() {
    let model = body();
    let n = numbers();
    let o = options();
    let regressor = Regressor::new(&model, &o, &n, |w: &f64| *w >= 0.01, place);
    assert!(matches!(regressor.fit(&vec![vec![[0.0; 3]; 3]], &vec![]), Err(FitFailure::Shape)));
    let regions = BoneRegions::new(&model.figure, 8, |w: &f64| *w >= 0.01, 0.0, &Floats, place);
    let fit = BodyFit::new(&model, &regions, &n, &o, 2);
    let rest = fit.rest_pose().unwrap();
    assert_eq!((rest.len(), rest[1].len(), rest[1][1][2]), (2, 2, [0.0, 0.0, 1.0, 0.0]));
    let r = fit.forward(&rest, &PhenotypeValues::defaults(0.5), PoseParameterization::RestRelative);
    assert!(matches!(r, Err(FitFailure::Forward(ForwardError::Batch { have: 2, want: 1 }))));
    assert!(matches!(fit.in_place(&vec![vec![]]), Err(FitFailure::Shape)));
    assert!(matches!(fit.with_root(&rest, &vec![]), Err(FitFailure::Shape)));
}

impl PixelOps<f64> for Floats {
    fn rounded(&self, a: f64) -> i64 {
        a.round() as i64
    }
}

#[test]
fn pixels_colour_faces() {
    // Two by two pixels, row by row.
    let pixels: Vec<u8> = vec![1, 1, 1, 2, 2, 2, 3, 3, 3, 4, 4, 4];
    let texture = vec![[0.0, 0.4], [0.4, 0.6], [1.0, 0.0], [0.6, 0.5]];
    // Means of (0.2, 0.5), (1.0, 0.0) and (0.5, 0.55).
    let faces = vec![vec![0, 1], vec![2], vec![1, 3]];
    let at = |f: usize| face_centre(&texture, &faces[f], 2, 2, 0.0, 1.0, &Floats);
    assert_eq!((at(0), at(1), at(2)), ((0, 1), (2, 2), (1, 1)));
    let r = sample_face_colors(&texture, &faces, &pixels, 2, 2, 0.0, 1.0, &Floats).unwrap();
    assert_eq!(r, vec![[3, 3, 3], [4, 4, 4], [4, 4, 4]]);
    // A high image: the column is kept below the height, the row below the width.
    let high: Vec<u8> = (0..12).collect();
    let r = sample_face_colors(&texture, &vec![vec![0]], &high, 1, 4, 0.0, 1.0, &Floats).unwrap();
    assert_eq!(r, vec![[0, 1, 2]]);
    assert!(matches!(
        sample_face_colors(&texture, &vec![vec![0], vec![]], &pixels, 2, 2, 0.0, 1.0, &Floats),
        Err(SegmentationError::MissingTextureCoords)
    ));
}
