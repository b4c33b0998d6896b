use anny_rs::phenotype::{
    batch_size, blendshape_coefficients, broadcast, coefficients_of_rows, excluded_phenotypes, features,
    masked_product, phenotype_rows, stack_features, variation_columns, variations, BatchMismatch,
    CoefficientError, MaskMismatch, PhenotypeAnchors, PhenotypeValues, PHENOTYPE_VARIATION_COUNT,
};
use anny_rs::rotation::{rigid_to_homogeneous, rotvec_to_rotmat, AngleOps, RotationOps};
use anny_rs::scalar::{Arithmetic, Bounds, Division, Lengths, Signs};
use anny_rs::shape_distribution::{
    gendered_draws, sampled_phenotype, uniform_labels, ConditionalBetaDistribution, Draw,
    MorphologicalAgeMapping, Prior, ShapeDistributionError,
};
use anny_rs::skinning::{
    apply_linear_blendshape, dual_quaternion_skinning, linear_blend_skinning, max_batch, MotionOps,
    SkinError,
};
use anny_rs::utils::interpolation::linear_interpolation_coefficients;
use anny_rs::utils::shares::normalised;

struct Floats;

impl Arithmetic<f64> for Floats {
    fn plus(&self, a: f64, b: f64) -> f64 {
        a + b
    }

    fn minus(&self, a: f64, b: f64) -> f64 {
        a - b
    }

    fn times(&self, a: f64, b: f64) -> f64 {
        a * b
    }

    fn negative(&self, a: f64) -> f64 {
        -a
    }
}

impl Division<f64> for Floats {
    fn quotient(&self, a: f64, b: f64) -> f64 {
        a / b
    }

    fn undefined(&self, a: f64) -> bool {
        a.is_nan()
    }
}

impl Bounds<f64> for Floats {
    fn less(&self, a: f64, b: f64) -> bool {
        a < b
    }
}

impl Signs<f64> for Floats {
    fn positive(&self, a: f64) -> bool {
        a > 0.0
    }
}

impl Lengths<f64> for Floats {
    fn length(&self, v: &[f64; 3]) -> f64 {
        (v[0] * v[0] + v[1] * v[1] + v[2] * v[2]).sqrt()
    }
}

impl RotationOps<f64> for Floats {
    fn doubled_root(&self, a: f64) -> f64 {
        a.sqrt() * 2.0
    }

    fn quarter(&self, a: f64) -> f64 {
        0.25 * a
    }
}

impl MotionOps<f64> for Floats {
    fn halved(&self, a: f64) -> f64 {
        0.5 * a
    }

    fn doubled(&self, a: f64) -> f64 {
        2.0 * a
    }

    fn root(&self, a: f64) -> f64 {
        a.sqrt()
    }

    fn not_negative(&self, a: f64) -> bool {
        a >= 0.0
    }
}

impl AngleOps<f64> for Floats {
    fn not_zero(&self, a: f64) -> f64 {
        a.max(1e-30)
    }

    fn cosine(&self, angle: f64) -> f64 {
        angle.cos()
    }

    fn sine(&self, angle: f64) -> f64 {
        angle.sin()
    }
}

const THIRD: f64 = 1.0 / 3.0;

fn near(a: f64, b: f64, eps: f64) {
    assert!((a - b).abs() < eps, "{} is not near {}", a, b);
}

fn interpolated(xs: &[f64], extrapolate: bool) -> Vec<Vec<f64>> {
    linear_interpolation_coefficients(&xs.to_vec(), &vec![0.0, 0.5, 1.0], extrapolate, 0.0, 1.0, &Floats)
}

#[test]
fn matches_python_example() {
    let got = interpolated(&[-0.1, 0.25, 0.5, 0.75, 1.1], true);
    let expected =
        [[1.2, -0.2, 0.0], [0.5, 0.5, 0.0], [0.0, 1.0, 0.0], [0.0, 0.5, 0.5], [0.0, -0.2, 1.2]];
    assert_eq!(got.len(), expected.len());
    for (row, exp) in got.iter().zip(expected.iter()) {
        for (g, e) in row.iter().zip(exp.iter()) {
            near(*g, *e, 1e-12);
        }
    }
}

#[test]
fn no_extrapolate_clamps() {
    let got = interpolated(&[-0.5, 1.5], false);
    near(got[0][0], 1.0, 1e-12);
    near(got[0][1], 0.0, 1e-12);
    near(got[1][1], 0.0, 1e-12);
    near(got[1][2], 1.0, 1e-12);
}

#[test]
fn interpolation_weights_give_the_value_back() {
    let anchors = vec![-1.0 / 3.0, 0.0, 0.4, 1.0];
    for v in [-0.3, 0.0, 0.1, 0.4, 0.9, 1.0] {
        let row = &linear_interpolation_coefficients(&vec![v], &anchors, false, 0.0, 1.0, &Floats)[0];
        let back: f64 = row.iter().zip(&anchors).map(|(w, a)| w * a).sum();
        near(back, v, 1e-12);
        near(row.iter().sum::<f64>(), 1.0, 1e-12);
    }
}

#[test]
fn shares_of_a_sum() {
    assert_eq!(normalised(vec![1.0, 3.0], 0.0, &Floats), vec![0.25, 0.75]);
    assert_eq!(normalised(vec![0.0, 0.0], 0.0, &Floats), vec![0.0, 0.0]);
    assert_eq!(normalised(vec![-1.0, 0.5], 0.0, &Floats), vec![-1.0, 0.5]);
    assert!(normalised(vec![], 0.0, &Floats).is_empty());
}

#[test]
fn variation_count_is_26() {
    assert_eq!(PHENOTYPE_VARIATION_COUNT, 26);
    assert_eq!(variation_columns().len(), 26);
}

#[test]
fn taxonomy() {
    assert_eq!(
        features(),
        vec!["race", "gender", "age", "muscle", "weight", "height", "proportions", "cupsize", "firmness"]
    );
    assert_eq!(variations("gender"), vec!["male", "female"]);
    assert_eq!(variations("age"), vec!["newborn", "baby", "child", "young", "old"]);
    let all: Vec<&str> = features().iter().flat_map(|f| variations(f)).collect();
    assert_eq!(all, variation_columns());
    assert_eq!(excluded_phenotypes(), vec!["cupsize", "firmness", "african", "asian", "caucasian"]);
}

fn linspace(lo: f64, hi: f64, n: usize) -> Vec<f64> {
    let step = (hi - lo) / (n as f64 - 1.0);
    (0..n).map(|i| lo + step * i as f64).collect()
}

fn anchors() -> PhenotypeAnchors<f64> {
    PhenotypeAnchors {
        age: linspace(-1.0 / 3.0, 1.0, 5),
        gender: linspace(0.0, 1.0, 2),
        muscle: linspace(0.0, 1.0, 3),
        weight: linspace(0.0, 1.0, 3),
        height: linspace(0.0, 1.0, 2),
        proportions: linspace(0.0, 1.0, 2),
        cupsize: linspace(0.0, 1.0, 3),
        firmness: linspace(0.0, 1.0, 3),
    }
}

fn defaults() -> PhenotypeValues<Vec<f64>> {
    let half = || vec![0.5];
    PhenotypeValues {
        age: half(),
        gender: half(),
        muscle: half(),
        weight: half(),
        height: half(),
        proportions: half(),
        cupsize: half(),
        firmness: half(),
        african: half(),
        asian: half(),
        caucasian: half(),
    }
}

fn eye(n: usize) -> Vec<Vec<bool>> {
    (0..n).map(|i| (0..n).map(|j| i == j).collect()).collect()
}

fn coefficients(
    values: &PhenotypeValues<Vec<f64>>,
    masks: &Vec<Vec<bool>>,
) -> Result<Vec<Vec<f64>>, CoefficientError> {
    blendshape_coefficients(values, &anchors(), masks, false, 0.0, 1.0, &Floats, THIRD)
}

#[test]
fn defaults_yield_uniform_race() {
    let v = coefficients(&defaults(), &eye(26)).unwrap();
    assert_eq!((v.len(), v[0].len()), (1, 26));
    for i in 0..3 {
        assert!((v[0][i] - 1.0 / 3.0).abs() < 1e-12);
    }
    for i in 0..26 {
        assert!(v[0][i] >= -1e-12 && v[0][i] <= 1.0 + 1e-12, "col {} = {}", i, v[0][i]);
    }
}

#[test]
fn race_normalisation_sums_to_one() {
    let mut values = defaults();
    values.african = vec![1.0];
    values.asian = vec![2.0];
    values.caucasian = vec![1.0];
    let v = coefficients(&values, &eye(26)).unwrap();
    let race_sum = v[0][0] + v[0][1] + v[0][2];
    assert!((race_sum - 1.0).abs() < 1e-12);
    assert!((v[0][1] - 0.5).abs() < 1e-12);
}

#[test]
fn races_without_a_sum_count_alike() {
    let mut values = defaults();
    values.african = vec![0.0];
    values.asian = vec![0.0];
    values.caucasian = vec![0.0];
    let v = coefficients(&values, &eye(26)).unwrap();
    for i in 0..3 {
        assert!((v[0][i] - 1.0 / 3.0).abs() < 1e-12);
    }
}

#[test]
fn product_collapses_correctly() {
    let mut values = defaults();
    values.african = vec![1.0];
    values.asian = vec![0.0];
    values.caucasian = vec![0.0];
    values.gender = vec![1.0];
    let mut masks = vec![vec![false; 26], vec![false; 26]];
    masks[0][0] = true;
    masks[0][1] = true;
    masks[1][4] = true;
    let v = coefficients(&values, &masks).unwrap();
    assert!((v[0][0] - 0.0).abs() < 1e-12);
    assert!((v[0][1] - 1.0).abs() < 1e-12);
}

#[test]
fn masks_select_factors() {
    assert_eq!(masked_product(&vec![2.0, 3.0, 5.0], &vec![true, false, true], 1.0, &Floats), 10.0);
    assert_eq!(masked_product(&vec![2.0, 3.0], &vec![false, false], 1.0, &Floats), 1.0);
    let r = coefficients_of_rows(&vec![vec![2.0, 3.0]], &vec![vec![true, true]], 2, 1.0, &Floats);
    assert_eq!(r, Ok(vec![vec![6.0]]));
    let r = coefficients_of_rows(&vec![vec![2.0, 3.0]], &vec![vec![true]], 2, 1.0, &Floats);
    assert_eq!(r, Err(MaskMismatch { mask: 1, columns: 2 }));
}

#[test]
fn masks_are_measured_without_a_body() {
    let empty: PhenotypeValues<Vec<f64>> = PhenotypeValues {
        age: vec![],
        gender: vec![],
        muscle: vec![],
        weight: vec![],
        height: vec![],
        proportions: vec![],
        cupsize: vec![],
        firmness: vec![],
        african: vec![],
        asian: vec![],
        caucasian: vec![],
    };
    assert_eq!(coefficients(&empty, &eye(26)).unwrap(), Vec::<Vec<f64>>::new());
    assert!(matches!(
        coefficients(&empty, &eye(25)),
        Err(CoefficientError::Mask(MaskMismatch { mask: 25, columns: 26 }))
    ));
    assert_eq!(
        coefficients_of_rows(&Vec::<Vec<f64>>::new(), &vec![vec![true]], 2, 1.0, &Floats),
        Err(MaskMismatch { mask: 1, columns: 2 })
    );
}

#[test]
fn no_races_share_alike() {
    let mut values = PhenotypeValues::defaults(0.5);
    values.african = vec![0.0];
    values.asian = vec![0.0];
    values.caucasian = vec![0.0];
    let rows = phenotype_rows(&values, &anchors(), false, 0.0, 1.0, &Floats, THIRD).unwrap();
    assert_eq!(rows[0][..3], [THIRD; 3]);
    values.asian = vec![3.0];
    let rows = phenotype_rows(&values, &anchors(), false, 0.0, 1.0, &Floats, THIRD).unwrap();
    assert_eq!(rows[0][..3], [0.0, 1.0, 0.0]);
}

#[test]
fn batches_are_broadcast() {
    let mut values = defaults();
    values.height = vec![0.0, 1.0, 0.5];
    let rows = phenotype_rows(&values, &anchors(), false, 0.0, 1.0, &Floats, THIRD).unwrap();
    assert_eq!(rows.len(), 3);
    // The height is in columns 16 and 17.
    assert_eq!(&rows[0][16..18], &[1.0, 0.0]);
    assert_eq!(&rows[1][16..18], &[0.0, 1.0]);
    assert_eq!(&rows[2][16..18], &[0.5, 0.5]);
    assert_eq!(rows[0][..16], rows[1][..16]);
    values.weight = vec![0.0, 1.0];
    assert_eq!(
        phenotype_rows(&values, &anchors(), false, 0.0, 1.0, &Floats, THIRD),
        Err(BatchMismatch { len: 2, batch: 3 })
    );
    assert!(matches!(
        coefficients(&values, &eye(26)),
        Err(CoefficientError::Batch(BatchMismatch { len: 2, batch: 3 }))
    ));
    assert!(matches!(
        coefficients(&defaults(), &eye(25)),
        Err(CoefficientError::Mask(MaskMismatch { mask: 25, columns: 26 }))
    ));
    assert_eq!(batch_size(&vec![1, 4, 2]), 4);
    assert_eq!(broadcast(&vec![7], 3), Ok(vec![7, 7, 7]));
    assert_eq!(broadcast(&vec![7, 8], 2), Ok(vec![7, 8]));
    assert_eq!(broadcast(&vec![7, 8], 3), Err(BatchMismatch { len: 2, batch: 3 }));
    assert_eq!(
        stack_features(&vec![vec![vec![1, 2]], vec![vec![3], vec![4]]], 2),
        Ok(vec![vec![1, 2, 3], vec![1, 2, 4]])
    );
}

#[test]
fn phenotype_labels_are_fields() {
    let mut values = defaults();
    assert!(values.set("age", vec![0.25]));
    assert_eq!(values.get("age"), Some(&vec![0.25]));
    assert_eq!(values.age, vec![0.25]);
    assert!(!values.set("shoe", vec![1.0]));
    assert!(values.get("shoe").is_none());
}

#[test]
fn lbs_identity_transforms_passes_vertices_through() {
    let (v, m, k) = (4, 1, 2);
    let vertices = vec![vec![[1.0, 2.0, 3.0], [4.0, 5.0, 6.0], [7.0, 8.0, 9.0], [10.0, 11.0, 12.0]]];
    let weights = vec![vec![vec![1.0]; v]];
    let indices = vec![vec![vec![0u32], vec![1], vec![0], vec![1]]];
    let identity = [[1.0, 0.0, 0.0, 0.0], [0.0, 1.0, 0.0, 0.0], [0.0, 0.0, 1.0, 0.0], [0.0, 0.0, 0.0, 1.0]];
    let transforms = vec![vec![identity; k]];
    let out =
        linear_blend_skinning(&vertices, &weights, &indices, &transforms, v, m, k, 0.0, 1.0, &Floats)
            .unwrap();
    for (a, b) in vertices[0].iter().zip(out[0].iter()) {
        for c in 0..3 {
            assert!((a[c] - b[c]).abs() < 1e-12);
        }
    }
}

#[test]
fn lbs_translation_only() {
    let (v, m, k) = (2, 1, 1);
    let vertices = vec![vec![[0.0, 0.0, 0.0], [1.0, 1.0, 1.0]]];
    let weights = vec![vec![vec![1.0]; v]];
    let indices = vec![vec![vec![0u32], vec![0]]];
    let mat = [[1.0, 0.0, 0.0, 10.0], [0.0, 1.0, 0.0, 20.0], [0.0, 0.0, 1.0, 30.0], [0.0, 0.0, 0.0, 1.0]];
    let transforms = vec![vec![mat]];
    let out =
        linear_blend_skinning(&vertices, &weights, &indices, &transforms, v, m, k, 0.0, 1.0, &Floats)
            .unwrap();
    let v: Vec<f64> = out[0].iter().flatten().copied().collect();
    assert!((v[0] - 10.0).abs() < 1e-12);
    assert!((v[1] - 20.0).abs() < 1e-12);
    assert!((v[2] - 30.0).abs() < 1e-12);
    assert!((v[3] - 11.0).abs() < 1e-12);
    assert!((v[4] - 21.0).abs() < 1e-12);
    assert!((v[5] - 31.0).abs() < 1e-12);
}

#[test]
fn dqs_matches_lbs_for_pure_rigid_transforms() {
    let (v, m, k) = (4, 1, 1);
    let r = rotvec_to_rotmat(&[0.3, -0.2, 0.5], 0.0, 1.0, &Floats);
    let transforms = vec![vec![rigid_to_homogeneous(&r, &[0.5, -1.0, 2.5], 0.0, 1.0)]];
    assert_eq!((transforms.len(), transforms[0].len()), (1, k));
    let vertices = vec![vec![[1.0, 0.0, 0.0], [0.0, 1.0, 0.0], [0.0, 0.0, 1.0], [0.5, 0.5, 0.5]]];
    let weights = vec![vec![vec![1.0]; v]];
    let indices = vec![vec![vec![0u32]; v]];
    let out_lbs =
        linear_blend_skinning(&vertices, &weights, &indices, &transforms, v, m, k, 0.0, 1.0, &Floats)
            .unwrap();
    let out_dqs = dual_quaternion_skinning(
        &vertices, &weights, &indices, &transforms, v, m, k, 0.0, 1.0, &Floats,
    )
    .unwrap();
    for (a, b) in out_lbs[0].iter().flatten().zip(out_dqs[0].iter().flatten()) {
        assert!((a - b).abs() < 1e-9, "LBS={} DQS={}", a, b);
    }
}

#[test]
fn blended_motions_keep_distances() {
    // Halfway between two bones, linear blending brings the points together.
    let a = rotvec_to_rotmat(&[0.0, 0.0, 0.0], 0.0, 1.0, &Floats);
    let b = rotvec_to_rotmat(&[0.0, 0.0, 2.0], 0.0, 1.0, &Floats);
    let transforms = vec![vec![
        rigid_to_homogeneous(&a, &[0.0, 0.0, 0.0], 0.0, 1.0),
        rigid_to_homogeneous(&b, &[0.5, -1.0, 2.5], 0.0, 1.0),
    ]];
    let vertices = vec![vec![[1.0, 0.0, 0.0], [0.0, 2.0, 0.5]]];
    let weights = vec![vec![vec![0.5, 0.5]; 2]];
    let indices = vec![vec![vec![0u32, 1]; 2]];
    let apart = |p: &Vec<[f64; 3]>| -> f64 { (0..3).map(|c| (p[0][c] - p[1][c]).powi(2)).sum() };
    let dual = dual_quaternion_skinning(
        &vertices, &weights, &indices, &transforms, 2, 2, 2, 0.0, 1.0, &Floats,
    )
    .unwrap();
    let linear =
        linear_blend_skinning(&vertices, &weights, &indices, &transforms, 2, 2, 2, 0.0, 1.0, &Floats)
            .unwrap();
    near(apart(&dual[0]), 5.25, 1e-9);
    assert!(apart(&linear[0]) < 4.0);
}

#[test]
fn dqs_takes_the_short_way_round() {
    // Two bones turned by almost a full turn apart have opposite signs.
    let a = rotvec_to_rotmat(&[0.0, 0.0, 3.0], 0.0, 1.0, &Floats);
    let b = rotvec_to_rotmat(&[0.0, 0.0, -3.0], 0.0, 1.0, &Floats);
    let transforms = vec![vec![
        rigid_to_homogeneous(&a, &[0.0, 0.0, 0.0], 0.0, 1.0),
        rigid_to_homogeneous(&b, &[0.0, 0.0, 0.0], 0.0, 1.0),
    ]];
    let out = dual_quaternion_skinning(
        &vec![vec![[1.0, 0.0, 0.0]]],
        &vec![vec![vec![0.5, 0.5]]],
        &vec![vec![vec![0, 1]]],
        &transforms,
        1,
        2,
        2,
        0.0,
        1.0,
        &Floats,
    )
    .unwrap();
    near(out[0][0][0], -1.0, 1e-9);
    near(out[0][0][1], 0.0, 1e-9);
}

#[test]
fn skinning_reports_its_errors() {
    let vertices = vec![vec![[1.0, 0.0, 0.0]]];
    let identity = [[1.0, 0.0, 0.0, 0.0], [0.0, 1.0, 0.0, 0.0], [0.0, 0.0, 1.0, 0.0], [0.0, 0.0, 0.0, 1.0]];
    let run = |vertices: &Vec<Vec<[f64; 3]>>, weights: Vec<Vec<Vec<f64>>>, indices: Vec<Vec<Vec<u32>>>, batch: usize, m: usize| {
        let transforms = vec![vec![identity]; batch];
        let lbs = linear_blend_skinning(vertices, &weights, &indices, &transforms, 1, m, 1, 0.0, 1.0, &Floats);
        let dqs = dual_quaternion_skinning(
            vertices, &weights, &indices, &transforms, 1, m, 1, 0.0, 1.0, &Floats,
        );
        (lbs, dqs)
    };
    let two = vec![vec![[1.0, 0.0, 0.0]]; 2];
    let (lbs, dqs) = run(&two, vec![vec![vec![1.0]]], vec![vec![vec![0]]], 3, 1);
    assert_eq!(lbs, Err(SkinError::Batch { have: 2, want: 3 }));
    assert_eq!(dqs, Err(SkinError::Batch { have: 2, want: 3 }));
    let (lbs, dqs) = run(&vertices, vec![vec![vec![1.0]]], vec![vec![vec![1]]], 1, 1);
    assert_eq!(lbs, Err(SkinError::BoneIndex));
    assert_eq!(dqs, Err(SkinError::BoneIndex));
    let (lbs, dqs) = run(&vertices, vec![vec![vec![]]], vec![vec![vec![]]], 1, 0);
    assert_eq!(lbs, Ok(vec![vec![[0.0, 0.0, 0.0]]]));
    assert_eq!(dqs, Err(SkinError::NoBones));
    assert_eq!(max_batch(&vec![1, 5, 3]), 5);
    assert_eq!(max_batch(&vec![]), 1);
    assert_eq!(
        apply_linear_blendshape(&vec![[0.0; 3]], &vec![vec![[1.0; 3]]], &vec![vec![]], 0.0, &Floats),
        Err(SkinError::Coefficients)
    );
}

#[test]
fn blendshape_application() {
    let template = vec![[0.0, 0.0, 0.0], [1.0, 1.0, 1.0]];
    let blendshapes = vec![
        vec![[1.0, 0.0, 0.0], [0.0, 0.0, 0.0]],
        vec![[0.0, 0.0, 0.0], [0.0, 1.0, 0.0]],
        vec![[0.0, 0.0, -1.0], [0.0, 0.0, 0.0]],
    ];
    let coeffs = vec![vec![0.5, 0.0, 1.0]];
    let out = apply_linear_blendshape(&template, &blendshapes, &coeffs, 0.0, &Floats).unwrap();
    let expected = [0.5_f64, 0.0, -1.0, 1.0, 1.0, 1.0];
    for (a, b) in out[0].iter().flatten().zip(expected.iter()) {
        assert!((a - b).abs() < 1e-12, "got {}, want {}", a, b);
    }
}

fn lists() -> Vec<(String, Vec<f64>)> {
    vec![
        ("anny_age_anchors".to_string(), vec![0.0, 0.05, 0.215, 0.415, 0.67, 0.77, 0.83, 1.0]),
        ("morphological_age_anchors".to_string(), vec![0.0, 1.0, 4.0, 11.0, 18.0, 50.0, 80.0, 110.0]),
        ("age_anchors".to_string(), vec![0.0, 10.0]),
        ("alpha_anchors".to_string(), vec![1.0, 3.0]),
        ("beta_anchors".to_string(), vec![2.0, 2.0]),
    ]
}

#[test]
fn morphological_age_round_trip() {
    let mapping = MorphologicalAgeMapping::from_state_dict(&lists()).unwrap();
    let ages: Vec<f64> = vec![0.0, 1.0, 4.0, 11.0, 18.0, 50.0, 80.0, 110.0];
    let anny = mapping.morphological_to_anny_age(&ages, 0.0, 1.0, &Floats).unwrap();
    let back = mapping.anny_to_morphological_age(&anny, 0.0, 1.0, &Floats).unwrap();
    assert_eq!(anny, mapping.anny_age_anchors);
    for (a, b) in ages.iter().zip(back.iter()) {
        near(*a, *b, 1e-9);
    }
}

#[test]
fn ages_beyond_the_anchors_follow_the_last_line() {
    let mapping = MorphologicalAgeMapping::from_state_dict(&lists()).unwrap();
    let anny = mapping.morphological_to_anny_age(&vec![140.0, -1.0], 0.0, 1.0, &Floats).unwrap();
    near(anny[0], 1.17, 1e-12);
    near(anny[1], -0.05, 1e-12);
}

#[test]
fn distribution_parameters_are_clamped() {
    let d = ConditionalBetaDistribution::from_state_dict(&lists()).unwrap();
    let (alpha, beta) =
        d.distribution_params(&vec![-5.0, 5.0, 50.0], 0.0, 1.0, &Floats).unwrap();
    assert_eq!(alpha, vec![1.0, 2.0, 3.0]);
    assert_eq!(beta, vec![2.0, 2.0, 2.0]);
}

#[test]
fn distributions_report_their_errors() {
    for (gone, mapping) in [
        ("anny_age_anchors", true),
        ("morphological_age_anchors", true),
        ("age_anchors", false),
        ("alpha_anchors", false),
        ("beta_anchors", false),
    ] {
        let rest: Vec<(String, Vec<f64>)> = lists().into_iter().filter(|(n, _)| n != gone).collect();
        let e = if mapping {
            MorphologicalAgeMapping::from_state_dict(&rest).unwrap_err()
        } else {
            ConditionalBetaDistribution::from_state_dict(&rest).unwrap_err()
        };
        match e {
            ShapeDistributionError::Missing(n) => assert_eq!(n, gone),
            other => panic!("{:?}", other),
        }
    }
    let mut short = lists();
    short[3].1.pop();
    let d = ConditionalBetaDistribution::from_state_dict(&short).unwrap();
    assert!(matches!(
        d.distribution_params(&vec![1.0], 0.0, 1.0, &Floats),
        Err(ShapeDistributionError::AnchorCount { have: 1, want: 2 })
    ));
}

#[test]
fn draws_follow_the_gender() {
    let boys = (vec![1.0, 2.0, 0.0], vec![1.5, 2.5, 3.5]);
    let girls = (vec![4.0, 5.0, 6.0], vec![4.5, 5.5, 6.5]);
    let r = gendered_draws(&boys, &girls, &vec![0.0, 1.0, 0.2], |g: &f64| *g < 0.5, |x: &f64| *x > 0.0);
    assert!(matches!(r[0], Draw::Beta { alpha, beta } if alpha == 1.0 && beta == 1.5));
    assert!(matches!(r[1], Draw::Beta { alpha, beta } if alpha == 5.0 && beta == 5.5));
    assert!(matches!(r[2], Draw::Uniform));
}

#[test]
fn sampled_values_land_in_their_fields() {
    let labels = uniform_labels(&vec!["gender", "age", "cupsize", "height", "asian"]);
    assert_eq!(labels, vec!["cupsize", "asian"]);
    let start = defaults();
    let prior = Prior {
        gender: vec![1.0],
        age: vec![2.0],
        height: vec![3.0],
        weight: vec![4.0],
        muscle: vec![5.0],
        proportions: vec![6.0],
    };
    let p = sampled_phenotype(start, &labels, vec![vec![7.0], vec![8.0]], prior);
    assert_eq!(p.cupsize, vec![7.0]);
    assert_eq!(p.asian, vec![8.0]);
    assert_eq!((p.gender[0], p.age[0], p.height[0]), (1.0, 2.0, 3.0));
    assert_eq!((p.weight[0], p.muscle[0], p.proportions[0]), (4.0, 5.0, 6.0));
    assert_eq!(p.african, vec![0.5]);
}
