use anny_rs::data::obj::{ObjGroup, ObjMesh};
use anny_rs::face_segmentation::{FaceSegmentation, SegmentationError};
use anny_rs::models::full_model::{
    caps_are_known, collect_body_faces, get_edited_mesh_faces, keep_faces, prune_unattached_vertices, regress_joints,
    select_faces, Faces, Figure, ModelError, ModelOptions, Rig, SkinningMethod, Topology,
};
use anny_rs::models::local_changes::local_change_activations;
use anny_rs::models::macrodetails::{
    local_changes, macrodetail_targets, set_mask, TargetCategory, TargetGroup,
};
use anny_rs::models::pose::PoseParameterization;
use anny_rs::models::presets::{
    bones_to_remove, hand_bones, hand_bones_to_remove, hand_options, hand_part, head_body_options,
    head_bones, head_bones_to_remove, head_options, head_parts, HandSide,
};
use anny_rs::models::retopology::{
    alternative_reference_options, first_group, interpolate_figure, interpolate_points,
    interpolate_weights, nearest_corners, smplx_reference_options, smplx_safetensors_path, triples,
    weight_columns,
};
use anny_rs::models::rig::{
    build_hierarchy, build_vertex_bone_matrix, dfs_topological_order, resolve_regressor,
    CoordinateRegressorJson, RigBoneJson, RigError, VertexBoneMatrix, WeightsJson,
};
use anny_rs::phenotype::variation_columns;
use anny_rs::scalar::{Arithmetic, Bounds, Division, Lengths, Signs};
use anny_rs::utils::mean::MeanOps;

struct Floats;

impl Arithmetic<f64> for Floats {
    fn plus(&self, a: f64, b: f64) -> f64 {
        a + b
    }

    fn minus(&self, a: f64, b: f64) -> f64 {
        a - b
    }

    fn times(&self, a: f64, b: f64) -> f64 {
        a * b
    }

    fn negative(&self, a: f64) -> f64 {
        -a
    }
}

impl Division<f64> for Floats {
    fn quotient(&self, a: f64, b: f64) -> f64 {
        a / b
    }

    fn undefined(&self, a: f64) -> bool {
        a.is_nan()
    }
}

impl Bounds<f64> for Floats {
    fn less(&self, a: f64, b: f64) -> bool {
        a < b
    }
}

impl Signs<f64> for Floats {
    fn positive(&self, a: f64) -> bool {
        a > 0.0
    }
}

impl Lengths<f64> for Floats {
    fn length(&self, v: &[f64; 3]) -> f64 {
        (v[0] * v[0] + v[1] * v[1] + v[2] * v[2]).sqrt()
    }
}

impl MeanOps<f64> for Floats {
    fn over(&self, a: f64, n: usize) -> f64 {
        a / n as f64
    }

    fn millimeters(&self, a: f64) -> f64 {
        a * 1000.0
    }
}

fn strings(words: &[&str]) -> Vec<String> {
    words.iter().map(|w| w.to_string()).collect()
}

fn at_vertex(v: u32) -> CoordinateRegressorJson {
    CoordinateRegressorJson {
        strategy: "VERTEX".to_string(),
        cube_name: None,
        vertex_index: Some(v),
        vertex_indices: None,
    }
}

fn bone(name: &str, parent: &str, v: u32) -> (String, RigBoneJson<f64>) {
    let b = RigBoneJson {
        head: at_vertex(v),
        tail: at_vertex(v + 1),
        roll: v as f64,
        parent: parent.to_string(),
    };
    (name.to_string(), b)
}

fn group(faces: Vec<Vec<u32>>) -> ObjGroup {
    let texture = faces.clone();
    ObjGroup { face_vertex_indices: faces, face_texture_coordinate_indices: texture }
}

fn mesh(groups: Vec<(&str, Vec<Vec<u32>>)>, vertices: usize) -> ObjMesh<f64> {
    ObjMesh {
        vertices: (0..vertices).map(|i| [i as f64, 0.0, 1.0]).collect(),
        texture_coordinates: vec![],
        groups: groups.into_iter().map(|(n, f)| (n.to_string(), group(f))).collect(),
    }
}

/// A root with two arms, one of which has a hand with an eye of its own.
fn rig() -> Vec<(String, RigBoneJson<f64>)> {
    vec![
        bone("hand.L", "arm.L", 2),
        bone("root", "", 0),
        bone("arm.R", "root", 3),
        bone("arm.L", "root", 1),
        bone("eye.L", "hand.L", 4),
    ]
}

fn weights() -> WeightsJson<f64> {
    WeightsJson {
        weights: vec![
            ("root".to_string(), vec![(0, 1.0), (1, 1.0)]),
            ("hand.L".to_string(), vec![(1, 3.0), (9, 1.0)]),
            ("eye.L".to_string(), vec![(2, 2.0)]),
        ],
    }
}

#[test]
fn bones_come_depth_first() {
    let (order, up) = dfs_topological_order(&rig()).unwrap();
    let names: Vec<String> = order.iter().map(|i| rig()[*i].0.clone()).collect();
    assert_eq!(names, strings(&["root", "arm.R", "arm.L", "hand.L", "eye.L"]));
    assert_eq!(up, vec![-1, 0, 0, 2, 3]);
}

#[test]
fn hierarchies_put_parents_first() {
    let mut w = weights();
    let h = build_hierarchy(&rig(), &mesh(vec![], 6), &vec![], &mut w).unwrap();
    assert_eq!(h.labels.len(), rig().len());
    assert_eq!(h.parents.iter().filter(|&&p| p == -1).count(), 1);
    for (i, &p) in h.parents.iter().enumerate() {
        if p >= 0 {
            assert!((p as usize) < i, "bone {} parent {} not before child", i, p);
        }
    }
    assert_eq!(h.head_regressors[1], vec![3]);
    assert_eq!(h.tail_regressors[1], vec![4]);
    assert_eq!(h.rolls, vec![0.0, 3.0, 1.0, 2.0, 4.0]);
}

#[test]
fn removed_bones_pass_on_children_and_weights() {
    let mut w = weights();
    let h = build_hierarchy(&rig(), &mesh(vec![], 6), &strings(&["hand.L"]), &mut w).unwrap();
    assert_eq!(h.labels, strings(&["root", "arm.R", "arm.L", "eye.L"]));
    assert_eq!(h.parents, vec![-1, 0, 0, 2]);
    let arm = w.weights.iter().find(|(n, _)| n == "arm.L").unwrap();
    assert_eq!(arm.1, vec![(1, 3.0), (9, 1.0)]);
    assert!(w.weights.iter().all(|(n, _)| n != "hand.L"));
}

#[test]
fn kept_bones_keep_what_is_theirs() {
    let whole = build_hierarchy(&rig(), &mesh(vec![], 6), &vec![], &mut weights()).unwrap();
    let h = build_hierarchy(&rig(), &mesh(vec![], 6), &strings(&["hand.L"]), &mut weights()).unwrap();
    for (j, label) in h.labels.iter().enumerate() {
        let i = whole.labels.iter().position(|l| l == label).unwrap();
        assert_eq!(h.head_regressors[j], whole.head_regressors[i]);
        assert_eq!(h.tail_regressors[j], whole.tail_regressors[i]);
        assert_eq!(h.rolls[j], whole.rolls[i]);
        // The nearest ancestor that is left.
        let mut p = whole.parents[i];
        while p >= 0 && whole.labels[p as usize] == "hand.L" {
            p = whole.parents[p as usize];
        }
        let above = if p < 0 { None } else { Some(&whole.labels[p as usize]) };
        let now = if h.parents[j] < 0 { None } else { Some(&h.labels[h.parents[j] as usize]) };
        assert_eq!(now, above);
    }
}

#[test]
fn removed_leaves_shrink_the_hierarchy() {
    let mut w = weights();
    let gone = strings(&["eye.L", "arm.R"]);
    let h = build_hierarchy(&rig(), &mesh(vec![], 6), &gone, &mut w).unwrap();
    assert!(!h.labels.iter().any(|n| n == "eye.L" || n == "arm.R"));
    assert_eq!(h.labels.len(), rig().len() - 2);
    let hand = w.weights.iter().find(|(n, _)| n == "hand.L").unwrap();
    assert_eq!(hand.1, vec![(1, 3.0), (9, 1.0), (2, 2.0)]);
}

#[test]
fn rigs_report_their_errors() {
    let none = mesh(vec![], 6);
    let two = vec![bone("a", "", 0), bone("b", "", 1)];
    assert!(matches!(dfs_topological_order(&two), Err(RigError::BadRootCount { found: 2 })));
    let lost = vec![bone("a", "", 0), bone("b", "gone", 1)];
    match dfs_topological_order(&lost) {
        Err(RigError::UnknownParent(n)) => assert_eq!(n, "gone"),
        other => panic!("{:?}", other),
    }
    match build_hierarchy(&rig(), &none, &strings(&["tail"]), &mut weights()) {
        Err(RigError::UnknownBoneToRemove(n)) => assert_eq!(n, "tail"),
        other => panic!("{:?}", other),
    }
    let mut cube = at_vertex(0);
    cube.strategy = "CUBE".to_string();
    match resolve_regressor(&cube, &none) {
        Err(RigError::UnknownStrategy(n)) => assert_eq!(n, "CUBE missing cube_name"),
        other => panic!("{:?}", other),
    }
    cube.cube_name = Some("joint".to_string());
    match resolve_regressor(&cube, &none) {
        Err(RigError::MissingGroup(n)) => assert_eq!(n, "joint"),
        other => panic!("{:?}", other),
    }
    cube.strategy = "MEDIAN".to_string();
    match resolve_regressor(&cube, &none) {
        Err(RigError::UnknownStrategy(n)) => assert_eq!(n, "MEDIAN"),
        other => panic!("{:?}", other),
    }
}

#[test]
fn regressors_name_vertices() {
    let m = mesh(vec![("joint", vec![vec![5, 2], vec![2, 3]])], 6);
    let mut r = at_vertex(4);
    assert_eq!(resolve_regressor(&r, &m).unwrap(), vec![4]);
    r.strategy = "CUBE".to_string();
    r.cube_name = Some("joint".to_string());
    assert_eq!(resolve_regressor(&r, &m).unwrap(), vec![2, 3, 5]);
    r.strategy = "MEAN".to_string();
    r.vertex_indices = Some(vec![5, 1]);
    assert_eq!(resolve_regressor(&r, &m).unwrap(), vec![5, 1]);
    let joints = regress_joints(&m.vertices, &vec![vec![2, 4], vec![]], 0.0, &Floats);
    assert_eq!(joints, vec![[3.0, 0.0, 1.0], [0.0, 0.0, 0.0]]);
}

#[test]
fn vertex_weights_are_normalised_and_padded() {
    let labels = strings(&["root", "hand.L", "eye.L"]);
    let t = build_vertex_bone_matrix(&weights(), &labels, 4, 0.0, &Floats);
    assert_eq!(t.max_bones_per_vertex, 2);
    assert_eq!(t.indices, vec![vec![0, 0], vec![0, 1], vec![2, 0], vec![0, 0]]);
    assert_eq!(t.weights, vec![vec![1.0, 0.0], vec![0.25, 0.75], vec![1.0, 0.0], vec![0.0, 0.0]]);
    for row in &t.weights {
        let sum: f64 = row.iter().sum();
        assert!(sum == 0.0 || (sum - 1.0).abs() < 1e-9);
    }
}

fn build(opts: &ModelOptions, faces: Vec<Vec<u32>>) -> Figure<f64> {
    let m = mesh(vec![], 7);
    let texture = faces.clone();
    let faces = Faces { vertices: faces, texture };
    Figure::build(opts, &m, &m.vertices, faces, &rig(), &mut weights(), 0.0, &Floats).unwrap()
}

#[test]
fn models_hold_what_they_were_built_from() {
    let model = build(&ModelOptions::new(), vec![vec![0, 2, 4], vec![6, 4, 2]]);
    assert_eq!(model.bone_count(), 5);
    assert_eq!(model.vertex_count(), 7);
    assert_eq!(model.propagation_fronts.len(), 4);
    assert!(model.base_mesh_vertex_indices.is_none());
    assert_eq!(model.phenotype_labels(), vec!["gender", "age", "muscle", "weight", "height", "proportions"]);
    let mut all = ModelOptions::new();
    all.all_phenotypes = true;
    let model = build(&all, vec![]);
    assert_eq!(model.phenotype_labels().len(), 11);
}

#[test]
fn pruned_models_keep_used_vertices() {
    let mut opts = ModelOptions::new();
    opts.remove_unattached_vertices = true;
    let model = build(&opts, vec![vec![0, 2, 4], vec![6, 4, 2]]);
    assert_eq!(model.base_mesh_vertex_indices, Some(vec![0, 2, 4, 6]));
    assert_eq!(model.faces, vec![vec![0, 1, 2], vec![3, 2, 1]]);
    assert_eq!(model.template_vertices[1], [2.0, 0.0, 1.0]);
    assert_eq!(model.vertex_bones.indices.len(), 4);
    let table = VertexBoneMatrix { indices: vec![vec![0]; 3], weights: vec![vec![1.0]; 3], max_bones_per_vertex: 1 };
    let p = prune_unattached_vertices(&vec![[0.0; 3], [1.0; 3], [2.0; 3]], &table, &vec![vec![2, 1]]);
    assert_eq!(p.kept, vec![1, 2]);
    assert_eq!(p.faces, vec![vec![1, 0]]);
}

#[test]
fn models_pass_on_rig_errors() {
    let mut opts = ModelOptions::new();
    opts.bones_to_remove = strings(&["tail"]);
    let faces = Faces { vertices: vec![], texture: vec![] };
    let m = mesh(vec![], 7);
    let r = Figure::build(&opts, &m, &m.vertices, faces, &rig(), &mut weights(), 0.0, &Floats);
    assert!(matches!(r, Err(ModelError::Rig(RigError::UnknownBoneToRemove(_)))));
}

#[test]
fn default_options() {
    let o = ModelOptions::new();
    assert_eq!(o.rig, Rig::Default);
    assert_eq!(o.rig.rig_filename(), "mpfb2/rigs/standard/rig.default.json");
    assert_eq!(o.rig.weights_filename(), "mpfb2/rigs/standard/weights.default.json");
    assert_eq!(o.topology, Topology::Makehuman);
    assert_eq!(o.default_pose_parameterization, PoseParameterization::RootRelativeWorld);
    assert_eq!(o.skinning_method, SkinningMethod::Lbs);
    assert!(o.bones_to_remove.is_empty() && o.faces_to_keep.is_none());
}

#[test]
fn faces_of_the_body_and_its_parts() {
    let m = mesh(
        vec![
            ("helper-tongue", vec![vec![4]]),
            ("body", vec![vec![1], vec![2]]),
            ("helper-r-eye", vec![vec![3]]),
        ],
        6,
    );
    let rows = |eyes, tongue| collect_body_faces(&m, eyes, tongue).unwrap().vertices;
    assert_eq!(rows(false, false), vec![vec![1], vec![2]]);
    assert_eq!(rows(true, false), vec![vec![1], vec![2], vec![3]]);
    assert_eq!(rows(true, true), vec![vec![1], vec![2], vec![3], vec![4]]);
    match collect_body_faces(&mesh(vec![], 1), true, true) {
        Err(ModelError::Config(s)) => assert_eq!(s, "base mesh has no 'body' group"),
        other => panic!("{:?}", other),
    }
    let faces = Faces { vertices: vec![vec![1], vec![2]], texture: vec![vec![5], vec![6]] };
    let kept = keep_faces(&faces, &vec![false, true]).unwrap();
    assert_eq!((kept.vertices, kept.texture), (vec![vec![2]], vec![vec![6]]));
    match keep_faces(&faces, &vec![true]) {
        Err(ModelError::Config(s)) => assert_eq!(s, "faces_to_keep length 1 \u{2260} face count 2"),
        other => panic!("{:?}", other),
    }
}

/// One discarded face over every corner of the caps, and one far from them.
fn capped() -> (Vec<Vec<u32>>, Vec<Vec<u32>>) {
    let mut corners: Vec<u32> = (1762..=1778).collect();
    corners.extend(8434..=8449);
    let texture = corners.iter().map(|v| v + 100000).collect();
    (vec![corners, vec![1, 2, 3]], vec![texture, vec![4, 5, 6]])
}

#[test]
fn caps_replace_discarded_faces() {
    let (faces, texture) = capped();
    let (f, t) = get_edited_mesh_faces(&faces, &texture).unwrap();
    assert_eq!(f.len(), 15);
    assert_eq!((f[0].clone(), t[0].clone()), (vec![1, 2, 3], vec![4, 5, 6]));
    assert_eq!(f[1], vec![8437, 8438, 8439, 8440]);
    assert_eq!(f[14], vec![1776, 1775, 1774, 1773]);
    for (face, tex) in f[1..].iter().zip(&t[1..]) {
        let want: Vec<u32> = face.iter().map(|v| v + 100000).collect();
        assert_eq!(tex, &want);
    }
    let (mut faces, mut texture) = capped();
    faces.push(vec![1762, 8450, 1770]);
    texture.push(vec![9, 108450, 101770]);
    match get_edited_mesh_faces(&faces, &texture) {
        Err(ModelError::Config(s)) => {
            assert_eq!(s, "vertex 1762 has inconsistent texture coordinates 101762 vs 9")
        }
        other => panic!("{:?}", other),
    }
}

#[test]
fn caps_need_their_corners() {
    let (faces, texture) = capped();
    let mut m = mesh(vec![], 1);
    let mut opts = ModelOptions::new();
    opts.topology = Topology::Default;
    assert!(caps_are_known(&opts, &m));
    let body = ObjGroup { face_vertex_indices: faces, face_texture_coordinate_indices: texture };
    m.groups.push(("body".to_string(), body));
    assert!(caps_are_known(&opts, &m));
    // Without the corner of one cap nothing can be selected.
    let at = m.groups.len() - 1;
    m.groups[at].1.face_vertex_indices[0].remove(0);
    m.groups[at].1.face_texture_coordinate_indices[0].remove(0);
    assert!(!caps_are_known(&opts, &m));
    opts.topology = Topology::Makehuman;
    assert!(caps_are_known(&opts, &m));
    opts.topology = Topology::Default;
    // A vertex with two coordinates is an error of its own.
    m.groups[at].1.face_vertex_indices.push(vec![1763, 8450]);
    m.groups[at].1.face_texture_coordinate_indices.push(vec![9, 10]);
    assert!(caps_are_known(&opts, &m));
    assert!(matches!(select_faces(&opts, &m), Err(ModelError::Config(_))));
}

#[test]
fn selected_faces_are_edited_then_masked() {
    let (faces, texture) = capped();
    let body = ObjGroup { face_vertex_indices: faces, face_texture_coordinate_indices: texture };
    let mut m = mesh(vec![], 1);
    m.groups.push(("body".to_string(), body));
    let mut opts = ModelOptions::new();
    assert_eq!(select_faces(&opts, &m).unwrap().vertices.len(), 2);
    opts.topology = Topology::Default;
    assert_eq!(select_faces(&opts, &m).unwrap().vertices.len(), 15);
    opts.topology = Topology::Makehuman;
    opts.faces_to_keep = Some(vec![false, true]);
    assert_eq!(select_faces(&opts, &m).unwrap().vertices, vec![vec![1, 2, 3]]);
    opts.faces_to_keep = Some(vec![true; 3]);
    assert!(matches!(select_faces(&opts, &m), Err(ModelError::Config(_))));
}

#[test]
fn local_changes_drive_two_directions() {
    let labels = strings(&["nose", "chin"]);
    let none = local_change_activations(&labels, &vec![], 2, 0.0, &Floats).unwrap();
    assert_eq!(none, vec![vec![0.0; 4]; 2]);
    let changes = vec![
        ("not-a-real-label".to_string(), vec![9.0, 9.0, 9.0]),
        ("chin".to_string(), vec![0.5]),
    ];
    let r = local_change_activations(&labels, &changes, 2, 0.0, &Floats).unwrap();
    assert_eq!(r, vec![vec![0.0, 0.0, 0.5, 0.0]; 2]);
    let each = vec![("nose".to_string(), vec![0.25, -0.75])];
    let r = local_change_activations(&labels, &each, 2, 0.0, &Floats).unwrap();
    assert_eq!(r, vec![vec![0.25, 0.0, 0.0, 0.0], vec![0.0, 0.75, 0.0, 0.0]]);
    let e = local_change_activations(&labels, &each, 3, 0.0, &Floats).unwrap_err();
    assert_eq!((e.label.as_str(), e.len, e.batch), ("nose", 2, 3));
}

#[test]
fn macrodetails_are_planned() {
    let all = macrodetail_targets();
    assert_eq!(all.len(), 651);
    assert!(all.iter().all(|t| t.mask.len() == 26 && t.path.ends_with(".target.gz")));
    assert!(all.iter().any(|t| t.newborn) && all.iter().any(|t| !t.newborn));
    let mask = set_mask(&vec!["female", "old"]);
    let names: Vec<&str> =
        variation_columns().into_iter().zip(mask).filter(|(_, on)| *on).map(|(n, _)| n).collect();
    assert_eq!(names, vec!["female", "old"]);
}

fn category(pairs: Option<&[(&str, &str)]>) -> TargetCategory {
    TargetCategory {
        opposites: pairs.map(|p| p.iter().map(|(k, v)| (k.to_string(), v.to_string())).collect()),
    }
}

#[test]
fn genital_morphs_need_a_flag() {
    let groups = vec![
        TargetGroup {
            name: "genitals".to_string(),
            categories: vec![category(Some(&[
                ("positive-unsided", "penis-circ-incr"),
                ("negative-unsided", "penis-circ-decr"),
            ]))],
        },
        TargetGroup {
            name: "arms".to_string(),
            categories: vec![
                category(None),
                category(Some(&[
                    ("positive-left", "l-incr"),
                    ("negative-left", "l-decr"),
                    ("positive-right", "r-incr"),
                    ("negative-right", ""),
                    ("positive-unsided", ""),
                    ("negative-unsided", ""),
                ])),
            ],
        },
    ];
    let plain = local_changes(&groups, false);
    assert_eq!(plain.len(), 1);
    assert_eq!((plain[0].group.as_str(), plain[0].positive.as_str(), plain[0].negative.as_str()), ("arms", "l-incr", "l-decr"));
    let every = local_changes(&groups, true);
    assert_eq!(every.iter().map(|c| c.positive.as_str()).collect::<Vec<_>>(), vec!["l-incr", "penis-circ-incr"]);
}

fn segmentation() -> FaceSegmentation {
    let labels = [
        "head", "eye_cavity.R", "eye_cavity.L", "mouth_cavity", "eye_front.L", "eye_back.L", "eye_front.R",
        "tongue", "hand.L", "hand.R",
    ];
    let colours = labels.iter().enumerate().map(|(i, l)| (l.to_string(), [i as u8, 0, 0])).collect();
    FaceSegmentation::new(colours, vec![[0, 0, 0], [9, 0, 0], [7, 0, 0], [77, 0, 0]])
}

#[test]
fn hand_models_keep_one_hand() {
    assert_eq!((HandSide::Left.suffix(), HandSide::Right.suffix()), ("L", "R"));
    assert_eq!(hand_part(HandSide::Right), "hand.R");
    assert_eq!(hand_bones(HandSide::Left).len(), 20);
    assert_eq!(hand_bones(HandSide::Left)[0], "wrist.L");
    let labels = strings(&["root", "wrist.R", "wrist.L", "finger1-1.R"]);
    assert_eq!(hand_bones_to_remove(&labels, HandSide::Right), strings(&["root", "wrist.L"]));
    let o = hand_options(ModelOptions::new(), HandSide::Right, &labels, &segmentation()).unwrap();
    assert_eq!(o.bones_to_remove, strings(&["root", "wrist.L"]));
    assert_eq!(o.faces_to_keep, Some(vec![false, true, false, false]));
    let e = hand_options(ModelOptions::new(), HandSide::Left, &labels, &FaceSegmentation::new(vec![], vec![]));
    assert!(matches!(e, Err(SegmentationError::UnknownLabel(l)) if l == "hand.L"));
}

#[test]
fn head_models_keep_the_head() {
    assert_eq!(head_parts(false, false), vec!["head", "eye_cavity.R", "eye_cavity.L", "mouth_cavity"]);
    assert_eq!(
        head_parts(true, true)[4..],
        ["eye_front.L", "eye_back.L", "eye_front.R", "eye_back.L", "tongue"]
    );
    assert!(head_bones(false, false).contains(&"head"));
    assert!(head_bones(true, false).len() > head_bones(false, false).len());
    assert!(head_bones(false, true).contains(&"tongue02"));
    assert!(!head_bones(false, false).contains(&"tongue02"));
    let labels = strings(&["root", "head", "tongue02"]);
    assert_eq!(head_bones_to_remove(&labels, false, false), strings(&["root", "tongue02"]));
    assert_eq!(bones_to_remove(&labels, &vec!["root"]), strings(&["head", "tongue02"]));
    let whole = head_body_options(ModelOptions::new(), true, false);
    assert!(whole.include_eyes && !whole.include_tongue);
    let o = head_options(ModelOptions::new(), false, true, &labels, &segmentation()).unwrap();
    assert_eq!(o.faces_to_keep, Some(vec![true, false, true, false]));
    assert_eq!(o.bones_to_remove, strings(&["root"]));
    assert!(!o.include_eyes && o.include_tongue);
}

#[test]
fn other_meshes_take_their_vertices_from_triangles() {
    let points = vec![[0.0, 0.0, 0.0], [4.0, 0.0, 0.0], [0.0, 8.0, 0.0]];
    let shares = vec![[0.5, 0.25, 0.25], [0.0, 0.0, 1.0]];
    let sources = vec![[0, 1, 2], [0, 1, 2]];
    let r = interpolate_points(&points, &shares, &sources, 0.0, &Floats);
    assert_eq!(r, vec![[1.0, 2.0, 0.0], [0.0, 8.0, 0.0]]);
    let table = VertexBoneMatrix {
        indices: vec![vec![0, 1], vec![1, 0], vec![2, 0]],
        weights: vec![vec![0.5, 0.5], vec![1.0, 0.0], vec![1.0, 0.0]],
        max_bones_per_vertex: 2,
    };
    let t = interpolate_weights(&table, &shares, &sources, 3, 0.0, &Floats);
    assert_eq!(t.max_bones_per_vertex, 3);
    assert_eq!(t.indices, vec![vec![0, 1, 2], vec![2, 0, 0]]);
    assert_eq!(t.weights, vec![vec![0.25, 0.5, 0.25], vec![1.0, 0.0, 0.0]]);
    assert_eq!(triples(&vec![1, 2, 3, 4, 5, 6, 7]), vec![[1, 2, 3], [4, 5, 6]]);
    assert_eq!(weight_columns(&vec![1.0, 2.0, 3.0, 4.0, 5.0, 6.0], 2), vec![[1.0, 3.0, 5.0], [2.0, 4.0, 6.0]]);
    assert_eq!(nearest_corners(&vec![[0, 1, 2], [2, 1, 3]], &vec![1, 0]), vec![[2, 1, 3], [0, 1, 2]]);
}

#[test]
fn retopology_keeps_the_skeleton() {
    let model = build(&ModelOptions::new(), vec![vec![0, 2, 4]]);
    let labels = model.bone_labels.clone();
    let r = interpolate_figure(
        model,
        &vec![[0.5, 0.5, 0.0]],
        &vec![[1, 2, 3]],
        &vec![[0, 0, 0]],
        0.0,
        &Floats,
    );
    assert_eq!(r.bone_labels, labels);
    assert_eq!(r.template_vertices, vec![[1.5, 0.0, 1.0]]);
    assert_eq!(r.faces, vec![vec![0, 0, 0]]);
    assert!(r.face_texture_coordinate_indices.is_empty());
}

#[test]
fn reference_models_of_other_meshes() {
    let o = smplx_reference_options(ModelOptions::new());
    assert!(o.include_eyes && !o.include_tongue);
    let mut pruned = ModelOptions::new();
    pruned.remove_unattached_vertices = true;
    let o = alternative_reference_options(pruned);
    assert!(!o.include_eyes && !o.include_tongue && !o.remove_unattached_vertices);
    assert!(first_group(&mesh(vec![], 0)).is_none());
    let m = mesh(vec![("a", vec![vec![1]]), ("b", vec![])], 0);
    assert_eq!(first_group(&m).unwrap().face_vertex_indices, vec![vec![1]]);
    assert!(smplx_safetensors_path(&b"/c".to_vec()).starts_with(b"/c/"));
}
