use anny_rs::anthropometry::{Anthropometry, MeasureOps};
use anny_rs::models::world::{apply_newborn_scaling, apply_world_transform, default_world_transform};
use anny_rs::scalar::{Arithmetic, Bounds, Division, Lengths, Signs};
use anny_rs::utils::bounds::{clamp, damped_step};
use anny_rs::utils::index::ascending_set;
use anny_rs::utils::mean::{mean_point, per_element_distances, MeanOps};
use anny_rs::utils::mesh::{
    point_to_mesh_distance_and_face_uvs, smooth_vertex_normals, triangulate_faces, SearchOps,
};
use anny_rs::utils::normals::fan_triangles;
use anny_rs::utils::triangle::{closest_point_on_triangle, NearestOps};

struct Floats;

impl Arithmetic<f64> for Floats {
    fn plus(&self, a: f64, b: f64) -> f64 {
        a + b
    }

    fn minus(&self, a: f64, b: f64) -> f64 {
        a - b
    }

    fn times(&self, a: f64, b: f64) -> f64 {
        a * b
    }

    fn negative(&self, a: f64) -> f64 {
        -a
    }
}

impl NearestOps<f64> for Floats {
    fn at_most(&self, a: f64, b: f64) -> bool {
        a <= b
    }
}

impl Division<f64> for Floats {
    fn quotient(&self, a: f64, b: f64) -> f64 {
        a / b
    }

    fn undefined(&self, a: f64) -> bool {
        a.is_nan()
    }
}

impl Bounds<f64> for Floats {
    fn less(&self, a: f64, b: f64) -> bool {
        a < b
    }
}

impl Signs<f64> for Floats {
    fn positive(&self, a: f64) -> bool {
        a > 0.0
    }
}

impl Lengths<f64> for Floats {
    fn length(&self, v: &[f64; 3]) -> f64 {
        (v[0] * v[0] + v[1] * v[1] + v[2] * v[2]).sqrt()
    }
}

impl SearchOps<f64> for Floats {
    fn root(&self, a: f64) -> f64 {
        a.sqrt()
    }
}

impl MeanOps<f64> for Floats {
    fn over(&self, a: f64, n: usize) -> f64 {
        a / n as f64
    }

    fn millimeters(&self, a: f64) -> f64 {
        a * 1000.0
    }
}

impl MeasureOps<f64> for Floats {
    fn sixth(&self, a: f64) -> f64 {
        a * (1.0 / 6.0)
    }

    fn absolute(&self, a: f64) -> f64 {
        a.abs()
    }
}

fn dist(a: &[f64; 3], b: &[f64; 3]) -> f64 {
    ((a[0] - b[0]).powi(2) + (a[1] - b[1]).powi(2) + (a[2] - b[2]).powi(2)).sqrt()
}

#[test]
fn passes_triangles_through() {
    let verts = vec![[0.0; 3]; 3];
    let faces = vec![vec![0u32, 1, 2]];
    let tri = triangulate_faces(&verts, &faces, &Floats);
    assert_eq!(tri, vec![[0, 1, 2]]);
}

#[test]
fn triangles_need_no_vertices() {
    let faces = vec![vec![7u32, 8, 9]];
    assert_eq!(triangulate_faces(&vec![[0.0; 3]; 3], &faces, &Floats), vec![[7, 8, 9]]);
    assert_eq!(triangulate_faces(&vec![], &faces, &Floats), vec![[7, 8, 9]]);
}

#[test]
fn splits_quad_on_shorter_diagonal() {
    let verts = vec![[0.0, 0.0, 0.0], [10.0, 1.0, 0.0], [11.0, 0.0, 0.0], [-1.0, -1.0, 0.0]];
    let faces = vec![vec![0u32, 1, 2, 3]];
    let tri = triangulate_faces(&verts, &faces, &Floats);
    assert_eq!(tri, vec![[0, 1, 2], [2, 3, 0]]);
}

#[test]
fn splits_quad_on_other_diagonal() {
    let verts = vec![[-10.0, 0.0, 0.0], [0.0, 0.0, 0.0], [10.0, 0.0, 0.0], [0.0, 0.1, 0.0]];
    let faces = vec![vec![0u32, 1, 2, 3]];
    let tri = triangulate_faces(&verts, &faces, &Floats);
    assert_eq!(tri, vec![[0, 1, 3], [3, 1, 2]]);
}

#[test]
fn equal_diagonals_take_the_second() {
    let verts = vec![[0.0, 0.0, 0.0], [1.0, 0.0, 0.0], [1.0, 1.0, 0.0], [0.0, 1.0, 0.0]];
    let faces = vec![vec![0u32, 1, 2, 3], vec![3, 2, 1]];
    let tri = triangulate_faces(&verts, &faces, &Floats);
    assert_eq!(tri, vec![[0, 1, 3], [3, 1, 2], [3, 2, 1]]);
}

const A: [f64; 3] = [0.0, 0.0, 0.0];
const B: [f64; 3] = [1.0, 0.0, 0.0];
const C: [f64; 3] = [0.0, 1.0, 0.0];

fn closest(p: [f64; 3]) -> ([f64; 3], [f64; 3]) {
    let foot = closest_point_on_triangle(&p, &A, &B, &C, 0.0, 1.0, &Floats);
    (foot.point, foot.shares)
}

#[test]
fn closest_point_at_vertex_a() {
    let (q, bary) = closest([-1.0, -1.0, 0.5]);
    assert!((q[0] - A[0]).abs() < 1e-12);
    assert!((bary[0] - 1.0).abs() < 1e-12);
    assert_eq!(bary[1], 0.0);
    assert_eq!(bary[2], 0.0);
}

#[test]
fn closest_point_inside_triangle() {
    let (q, bary) = closest([0.25, 0.25, 5.0]);
    assert!((q[0] - 0.25).abs() < 1e-12);
    assert!((q[1] - 0.25).abs() < 1e-12);
    assert!(q[2].abs() < 1e-12);
    let bary_sum: f64 = bary.iter().sum();
    assert!((bary_sum - 1.0).abs() < 1e-12);
}

#[test]
fn closest_point_on_edge_ab() {
    let (q, bary) = closest([0.5, -1.0, 0.0]);
    assert!((q[0] - 0.5).abs() < 1e-12);
    assert!(q[1].abs() < 1e-12);
    assert_eq!(bary[2], 0.0);
    assert!((bary[0] + bary[1] - 1.0).abs() < 1e-12);
}

#[test]
fn closest_point_in_every_other_region() {
    assert_eq!(closest([3.0, -1.0, 0.0]), (B, [0.0, 1.0, 0.0]));
    assert_eq!(closest([-1.0, 3.0, 0.0]), (C, [0.0, 0.0, 1.0]));
    assert_eq!(closest([-1.0, 0.25, 2.0]), ([0.0, 0.25, 0.0], [0.75, 0.0, 0.25]));
    assert_eq!(closest([1.0, 1.0, 0.0]), ([0.5, 0.5, 0.0], [0.0, 0.5, 0.5]));
}

#[test]
fn no_sampled_point_is_nearer_than_the_foot() {
    let (a, b, c) = ([0.2, -0.1, 0.4], [1.7, 0.3, -0.2], [0.6, 1.9, 0.9]);
    let mut seed: u64 = 7;
    let mut next = || {
        seed = seed.wrapping_mul(6364136223846793005).wrapping_add(1442695040888963407);
        ((seed >> 33) as f64) / ((1u64 << 31) as f64)
    };
    for _ in 0..200 {
        let p = [4.0 * next() - 1.5, 4.0 * next() - 1.5, 4.0 * next() - 1.5];
        let foot = closest_point_on_triangle(&p, &a, &b, &c, 0.0, 1.0, &Floats);
        let here = dist(&p, &foot.point);
        for i in 0..=20 {
            for j in 0..=(20 - i) {
                let (v, w) = (i as f64 / 20.0, j as f64 / 20.0);
                let u = 1.0 - v - w;
                let x = [
                    u * a[0] + v * b[0] + w * c[0],
                    u * a[1] + v * b[1] + w * c[1],
                    u * a[2] + v * b[2] + w * c[2],
                ];
                assert!(here <= dist(&p, &x) + 1e-9);
            }
        }
    }
}

#[test]
fn nearest_triangle_of_a_mesh() {
    let verts = vec![[0.0, 0.0, 0.0], [1.0, 0.0, 0.0], [0.0, 1.0, 0.0], [0.0, 0.0, 5.0], [1.0, 0.0, 5.0], [0.0, 1.0, 5.0]];
    let faces = vec![[0u32, 1, 2], [3, 4, 5], [3, 4, 5]];
    let points = vec![[0.2, 0.2, 1.0], [0.2, 0.2, 4.0]];
    let found = point_to_mesh_distance_and_face_uvs(
        &points,
        &verts,
        &faces,
        f64::INFINITY,
        0.0,
        1.0,
        &Floats,
    );
    assert_eq!(found.len(), 2);
    assert_eq!(found[0].face, 0);
    assert!((found[0].distance - 1.0).abs() < 1e-12);
    // Of two equal triangles the first counts.
    assert_eq!(found[1].face, 1);
    assert!((found[1].distance - 1.0).abs() < 1e-12);
    let sum: f64 = found[1].barycentric.iter().sum();
    assert!((sum - 1.0).abs() < 1e-12);
}

#[test]
fn no_triangle_leaves_the_start() {
    let found = point_to_mesh_distance_and_face_uvs(
        &vec![[0.0, 0.0, 0.0]],
        &vec![],
        &vec![],
        f64::INFINITY,
        0.0,
        1.0,
        &Floats,
    );
    assert_eq!(found[0].distance, f64::INFINITY);
    assert_eq!(found[0].face, 0);
    assert_eq!(found[0].barycentric, [1.0, 0.0, 0.0]);
}

#[test]
fn ascending_sets() {
    assert_eq!(ascending_set(&vec![vec![3, 1, 3], vec![], vec![0, 7]]), vec![0, 1, 3, 7]);
    assert!(ascending_set(&vec![]).is_empty());
}

#[test]
fn world_transform_rotates_y_to_z() {
    let m = default_world_transform(0.1, 0.0, &Floats);
    let out = apply_world_transform(&vec![[0.0, 1.0, 0.0]], &m, &Floats);
    assert!((out[0][0] as f64).abs() < 1e-15);
    assert!((out[0][1] as f64).abs() < 1e-15);
    assert!((out[0][2] - 0.1_f64).abs() < 1e-15);
    let out2 = apply_world_transform(&vec![[0.0, 0.0, 1.0]], &m, &Floats);
    assert!((out2[0][0] as f64).abs() < 1e-15);
    assert!((out2[0][1] - -0.1_f64).abs() < 1e-15);
    assert!((out2[0][2] as f64).abs() < 1e-15);
}

#[test]
fn newborn_scaling_adds_a_part_of_the_template() {
    let s = [0.922, 0.922, 0.75];
    let out =
        apply_newborn_scaling(&vec![[1.0, 0.0, 2.0]], &vec![[3.0, 3.0, 6.0]], &s, 3.0, 1.0, &Floats);
    let want = [0.922 - 0.078, -0.078, 1.5 - 0.5];
    for c in 0..3 {
        assert!((out[0][c] - want[c]).abs() < 1e-12);
    }
}

fn cube() -> (Vec<[f64; 3]>, Vec<Vec<u32>>) {
    let verts = vec![
        [0.0, 0.0, 0.0],
        [2.0, 0.0, 0.0],
        [2.0, 2.0, 0.0],
        [0.0, 2.0, 0.0],
        [0.0, 0.0, 2.0],
        [2.0, 0.0, 2.0],
        [2.0, 2.0, 2.0],
        [0.0, 2.0, 2.0],
    ];
    let faces = vec![
        vec![0, 3, 2, 1],
        vec![4, 5, 6, 7],
        vec![0, 1, 5, 4],
        vec![1, 2, 6, 5],
        vec![2, 3, 7, 6],
        vec![3, 0, 4, 7],
    ];
    (verts, faces)
}

#[test]
fn measurements_of_a_cube() {
    let (verts, faces) = cube();
    let a = Anthropometry {
        waist_vertex_indices: vec![0, 1, 2, 3],
        triangular_faces: triangulate_faces(&verts, &faces, &Floats),
    };
    let m = a.measurements(&verts, 0.0, 980.0, &Floats);
    assert!((m.height - 2.0).abs() < 1e-12);
    assert!((m.waist_circumference - 8.0).abs() < 1e-12);
    assert!((m.volume - 8.0).abs() < 1e-9);
    assert!((m.mass - 8.0 * 980.0).abs() < 1e-6);
    assert!((m.bmi - 8.0 * 980.0 / 4.0).abs() < 1e-6);
    assert_eq!(a.waist_predecessors(), vec![3, 0, 1, 2]);
    let (f0, f1, f2) = a.face_columns();
    assert_eq!(f0.len(), 12);
    assert_eq!([f0[0], f1[0], f2[0]], a.triangular_faces[0]);
}

#[test]
fn waist_of_whole_and_pruned_meshes() {
    let verts = vec![[0.0, 0.0, 0.0], [1.0, 0.0, 0.0], [0.0, 1.0, 0.0]];
    let faces = vec![vec![0u32, 1, 2]];
    let whole = Anthropometry::new(&verts, &faces, None, &Floats).unwrap();
    assert_eq!(whole.waist_vertex_indices.len(), 46);
    assert_eq!(whole.waist_vertex_indices[0], 4121);
    assert_eq!(whole.waist_vertex_indices[45], 4118);
    // Every other vertex goes, except those of the waist.
    let kept: Vec<u32> =
        (0..11000).filter(|v| v % 2 == 0 || whole.waist_vertex_indices.contains(v)).collect();
    let pruned = Anthropometry::new(&verts, &faces, Some(&kept), &Floats).unwrap();
    for i in 0..46 {
        assert_eq!(kept[pruned.waist_vertex_indices[i] as usize], whole.waist_vertex_indices[i]);
    }
    let broken: Vec<u32> = (0..11000).filter(|v| *v != 4130).collect();
    assert!(Anthropometry::new(&verts, &faces, Some(&broken), &Floats).is_none());
}

#[test]
fn clamped_values() {
    assert_eq!(clamp(-1.0, 0.0, 1.0, &Floats), 0.0);
    assert_eq!(clamp(0.25, 0.0, 1.0, &Floats), 0.25);
    assert_eq!(clamp(7.0, 0.0, 1.0, &Floats), 1.0);
}

#[test]
fn steps_are_damped() {
    assert_eq!(damped_step(0.5, 0.1, 0.2, 0.01, 0.99, &Floats), 0.6);
    assert_eq!(damped_step(0.5, 9.0, 0.25, 0.01, 0.99, &Floats), 0.75);
    assert_eq!(damped_step(0.5, -9.0, 0.25, 0.01, 0.99, &Floats), 0.25);
    assert_eq!(damped_step(0.9, 0.2, 0.25, 0.01, 0.99, &Floats), 0.99);
    assert_eq!(damped_step(0.1, -0.2, 0.25, 0.01, 0.99, &Floats), 0.01);
}

#[test]
fn means_of_points_and_distances() {
    assert_eq!(mean_point(&vec![[0.0, 2.0, 4.0], [2.0, 4.0, 0.0]], 0.0, &Floats), [1.0, 3.0, 2.0]);
    assert_eq!(mean_point(&vec![], 0.0, &Floats), [0.0, 0.0, 0.0]);
    let a = vec![vec![[0.0, 0.0, 0.0], [1.0, 1.0, 1.0]]];
    let b = vec![vec![[3.0, 4.0, 0.0], [1.0, 1.0, 2.0]]];
    assert_eq!(per_element_distances(&a, &b, 0.0, &Floats), vec![3000.0]);
}

#[test]
fn smooth_normals_are_unit_length() {
    // Two faces of a roof, a vertex that no face meets, and a face too small.
    let vertices = vec![
        [0.0, 0.0, 0.0], [1.0, 0.0, 0.0], [1.0, 1.0, 0.0], [0.0, 1.0, 0.0], [0.0, 0.0, 1.0], [9.0, 9.0, 9.0],
    ];
    let faces = vec![vec![0, 1, 2, 3], vec![0, 4, 1], vec![0, 1]];
    let normals = smooth_vertex_normals(&vertices, &faces, 0.0, &Floats);
    assert_eq!(normals.len(), 6);
    assert_eq!(normals[2], [0.0, 0.0, 1.0]);
    assert_eq!(normals[4], [0.0, 1.0, 0.0]);
    assert_eq!(normals[5], [0.0, 0.0, 0.0]);
    for n in &normals[..5] {
        let len = (n[0] * n[0] + n[1] * n[1] + n[2] * n[2]).sqrt();
        assert!((len - 1.0f64).abs() < 1e-9);
    }
    assert_eq!(fan_triangles(&faces), vec![[0, 1, 2], [0, 2, 3], [0, 4, 1]]);
}
