//! Triangulation and closest-triangle search.
use vstd::prelude::*;

pub use crate::utils::normals::smooth_vertex_normals;

use crate::rotation::inner;
use crate::scalar::{Bounds, Lengths};
use crate::utils::distance::{distance, way};
use crate::utils::triangle::{closest_point_on_triangle, Foot, NearestOps};

verus! {

// ---------------------------------------------------------------------------
// Triangulation
// ---------------------------------------------------------------------------

/// The triangles of one face; a quad is split along its first diagonal or
/// along its second.
pub open spec fn face_triangles(face: Seq<u32>, first: bool) -> Seq<Seq<u32>> {
    if face.len() == 3 {
        seq![seq![face[0], face[1], face[2]]]
    } else if first {
        seq![seq![face[0], face[1], face[2]], seq![face[2], face[3], face[0]]]
    } else {
        seq![seq![face[0], face[1], face[3]], seq![face[3], face[1], face[2]]]
    }
}

/// The triangles of the first `n` faces, given the diagonal of each.
pub open spec fn triangles(faces: Seq<Vec<u32>>, first: Seq<bool>, n: nat) -> Seq<Seq<u32>>
    decreases n,
{
    if n == 0 {
        Seq::empty()
    } else {
        triangles(faces, first, (n - 1) as nat) + face_triangles(faces[n - 1]@, first[n - 1])
    }
}

pub open spec fn corners(tris: Seq<[u32; 3]>) -> Seq<Seq<u32>> {
    tris.map_values(|t: [u32; 3]| t@)
}

/// `shorter` may be asked about every quad.
spec fn can_compare<F: Fn(u32, u32, u32, u32) -> bool>(
    shorter: F,
    faces: Seq<Vec<u32>>,
) -> bool {
    forall|i: int|
        0 <= i < faces.len() && (#[trigger] faces[i])@.len() == 4 ==> call_requires(
            shorter,
            (faces[i]@[0], faces[i]@[1], faces[i]@[2], faces[i]@[3]),
        )
}

/// `first[i]` is what `shorter` says of quad `i`.
spec fn is_choice<F: Fn(u32, u32, u32, u32) -> bool>(
    shorter: F,
    faces: Seq<Vec<u32>>,
    first: Seq<bool>,
) -> bool {
    &&& first.len() == faces.len()
    &&& forall|i: int|
        0 <= i < faces.len() && faces[i]@.len() == 4 ==> call_ensures(
            shorter,
            (faces[i]@[0], faces[i]@[1], faces[i]@[2], faces[i]@[3]),
            #[trigger] first[i],
        )
}

/// Splits quads into triangles and passes triangles through. `shorter(a, b,
/// c, d)` says whether the diagonal from `a` to `c` is shorter than that from
/// `b` to `d`; it is then the one to split along.
fn triangulate_by<F: Fn(u32, u32, u32, u32) -> bool>(
    faces: &Vec<Vec<u32>>,
    shorter: F,
) -> (r: Vec<[u32; 3]>)
    requires
        forall|i: int|
            0 <= i < faces@.len() ==> (#[trigger] faces@[i])@.len() == 3 || faces@[i]@.len() == 4,
        can_compare(shorter, faces@),
    ensures
        exists|first: Seq<bool>| #[trigger]
            is_choice(shorter, faces@, first) && corners(r@) =~~= triangles(
                faces@,
                first,
                faces@.len(),
            ),
{
    let n: usize = faces.len();
    let mut r: Vec<[u32; 3]> = Vec::new();
    let ghost mut first: Seq<bool> = Seq::empty();
    for i in 0..n
        invariant
            n == faces@.len(),
            forall|i: int|
                0 <= i < faces@.len() ==> (#[trigger] faces@[i])@.len() == 3 || faces@[i]@.len()
                    == 4,
            can_compare(shorter, faces@),
            first.len() == i,
            forall|j: int|
                0 <= j < i && faces@[j]@.len() == 4 ==> call_ensures(
                    shorter,
                    (faces@[j]@[0], faces@[j]@[1], faces@[j]@[2], faces@[j]@[3]),
                    #[trigger] first[j],
                ),
            corners(r@) =~~= triangles(faces@, first, i as nat),
    {
        let face: &Vec<u32> = &faces[i];
        let ghost before = r@;
        let ghost chosen = first;
        if face.len() == 3 {
            r.push([face[0], face[1], face[2]]);
            proof {
                first = first.push(true);
            }
        } else {
            let split = shorter(face[0], face[1], face[2], face[3]);
            if split {
                r.push([face[0], face[1], face[2]]);
                r.push([face[2], face[3], face[0]]);
            } else {
                r.push([face[0], face[1], face[3]]);
                r.push([face[3], face[1], face[2]]);
            }
            proof {
                first = first.push(split);
            }
        }
        proof {
            lemma_triangles_prefix(faces@, chosen, first, i as nat);
            let added = face_triangles(face@, first[i as int]);
            assert(corners(r@) =~~= corners(before) + added);
        }
    }
    assert(is_choice(shorter, faces@, first));
    r
}

/// The corners of the quads are vertices.
pub open spec fn quads_within(faces: Seq<Vec<u32>>, vertices: int) -> bool {
    forall|i: int, k: int|
        0 <= i < faces.len() && faces[i]@.len() == 4 && 0 <= k < 4
            ==> #[trigger] faces[i]@[k] < vertices
}

/// Whether the diagonal from `a` to `c` is shorter than that from `b` to `d`.
pub open spec fn is_shorter<T, O: Lengths<T> + Bounds<T>>(
    ops: &O,
    vertices: Seq<[T; 3]>,
    a: u32,
    b: u32,
    c: u32,
    d: u32,
    r: bool,
) -> bool {
    exists|first: T, second: T|
        {
            &&& #[trigger] crate::utils::distance::is_distance(
                ops,
                vertices[a as int]@,
                vertices[c as int]@,
                first,
            )
            &&& #[trigger] crate::utils::distance::is_distance(
                ops,
                vertices[b as int]@,
                vertices[d as int]@,
                second,
            )
            &&& crate::scalar::says_less(ops, first, second, r)
        }
}

/// `first[i]` says whether the first diagonal of quad `i` is the shorter one.
pub open spec fn are_diagonals<T, O: Lengths<T> + Bounds<T>>(
    ops: &O,
    vertices: Seq<[T; 3]>,
    faces: Seq<Vec<u32>>,
    first: Seq<bool>,
) -> bool {
    &&& first.len() == faces.len()
    &&& forall|i: int|
        0 <= i < faces.len() && faces[i]@.len() == 4 ==> is_shorter(
            ops,
            vertices,
            faces[i]@[0],
            faces[i]@[1],
            faces[i]@[2],
            faces[i]@[3],
            #[trigger] first[i],
        )
}

/// `r` are the triangles of the faces, quads split along their shorter
/// diagonals.
pub open spec fn are_triangulated<T, O: Lengths<T> + Bounds<T>>(
    ops: &O,
    vertices: Seq<[T; 3]>,
    faces: Seq<Vec<u32>>,
    r: Seq<[u32; 3]>,
) -> bool {
    exists|first: Seq<bool>| #[trigger]
        are_diagonals(ops, vertices, faces, first) && corners(r) =~~= triangles(
            faces,
            first,
            faces.len(),
        )
}

/// Splits quads into triangles along their shorter diagonals, and passes
/// triangles through, whatever their corners.
pub fn triangulate_faces<T: Copy, O: Lengths<T> + Bounds<T>>(
    vertices: &Vec<[T; 3]>,
    faces: &Vec<Vec<u32>>,
    ops: &O,
) -> (r: Vec<[u32; 3]>)
    requires
        forall|i: int|
            0 <= i < faces@.len() ==> (#[trigger] faces@[i])@.len() == 3 || faces@[i]@.len() == 4,
        quads_within(faces@, vertices@.len() as int),
    ensures
        are_triangulated(ops, vertices@, faces@, r@),
{
    let shorter = |a: u32, b: u32, c: u32, d: u32| -> (r: bool)
        requires
            a < vertices@.len(),
            b < vertices@.len(),
            c < vertices@.len(),
            d < vertices@.len(),
        ensures
            is_shorter(ops, vertices@, a, b, c, d, r),
        {
            let first = distance(&vertices[a as usize], &vertices[c as usize], ops);
            let second = distance(&vertices[b as usize], &vertices[d as usize], ops);
            ops.less(first, second)
        };
    proof {
        assert forall|i: int|
            0 <= i < faces@.len() && (#[trigger] faces@[i])@.len() == 4 implies call_requires(
            shorter,
            (faces@[i]@[0], faces@[i]@[1], faces@[i]@[2], faces@[i]@[3]),
        ) by {
            assert(faces@[i]@[0] < vertices@.len());
            assert(faces@[i]@[1] < vertices@.len());
            assert(faces@[i]@[2] < vertices@.len());
            assert(faces@[i]@[3] < vertices@.len());
        }
    }
    let r = triangulate_by(faces, shorter);
    proof {
        let first = choose|first: Seq<bool>| #[trigger]
            is_choice(shorter, faces@, first) && corners(r@) =~~= triangles(
                faces@,
                first,
                faces@.len(),
            );
        assert(are_diagonals(ops, vertices@, faces@, first));
    }
    r
}

proof fn lemma_triangles_prefix(faces: Seq<Vec<u32>>, a: Seq<bool>, b: Seq<bool>, n: nat)
    requires
        n <= a.len(),
        n <= b.len(),
        forall|i: int| 0 <= i < n ==> a[i] == b[i],
    ensures
        triangles(faces, a, n) == triangles(faces, b, n),
    decreases n,
{
    if n > 0 {
        lemma_triangles_prefix(faces, a, b, (n - 1) as nat);
    }
}

/// The number of triangles: one for each triangle, two for each quad.
pub open spec fn triangle_count(faces: Seq<Vec<u32>>, n: nat) -> nat
    decreases n,
{
    if n == 0 {
        0
    } else {
        triangle_count(faces, (n - 1) as nat) + if faces[n - 1]@.len() == 3 {
            1nat
        } else {
            2nat
        }
    }
}

/// However quads are split, their number of triangles is the same, and the
/// triangles use no vertices but those of the faces.
pub proof fn law_triangles_of_faces(faces: Seq<Vec<u32>>, first: Seq<bool>, n: nat)
    requires
        n <= faces.len(),
        forall|i: int|
            0 <= i < faces.len() ==> (#[trigger] faces[i])@.len() == 3 || faces[i]@.len() == 4,
    ensures
        triangles(faces, first, n).len() == triangle_count(faces, n),
        forall|t: int, k: int|
            0 <= t < triangles(faces, first, n).len() && 0 <= k < 3
                ==> crate::utils::index::occurs(
                faces,
                n as int,
                #[trigger] triangles(faces, first, n)[t][k],
            ),
    decreases n,
{
    if n > 0 {
        law_triangles_of_faces(faces, first, (n - 1) as nat);
        let before = triangles(faces, first, (n - 1) as nat);
        let added = face_triangles(faces[n - 1]@, first[n - 1]);
        let now = triangles(faces, first, n);
        let face = faces[n - 1]@;
        assert(face.len() == 3 || face.len() == 4);
        assert forall|t: int, k: int| 0 <= t < now.len() && 0 <= k < 3 implies
            crate::utils::index::occurs(faces, n as int, #[trigger] now[t][k]) by {
            if t < before.len() {
                assert(now[t] == before[t]);
                let x = before[t][k];
                assert(crate::utils::index::occurs(faces, n - 1, x));
                let (i, j) = choose|i: int, j: int|
                    0 <= i < n - 1 && 0 <= j < faces[i]@.len() && #[trigger] faces[i]@[j] == x;
                assert(faces[i]@[j] == x);
            } else {
                let tri = added[t - before.len()];
                assert(now[t] == tri);
                let x = tri[k];
                assert(face.contains(x)) by {
                    if face.len() == 3 {
                        assert(x == face[k]);
                    } else {
                        assert(x == face[0] || x == face[1] || x == face[2] || x == face[3]);
                    }
                }
                let j = choose|j: int| 0 <= j < face.len() && face[j] == x;
                assert(faces[n - 1]@[j] == x);
            }
        }
    }
}

// ---------------------------------------------------------------------------
// Closest triangle
// ---------------------------------------------------------------------------

/// The value that candidate `k` has; `far` where there is none yet.
pub open spec fn standing<T>(values: Seq<T>, far: T, k: int) -> T {
    if k < 0 {
        far
    } else {
        values[k]
    }
}

/// Candidate `k` stands after the first `n` values were offered: a value
/// takes over if it is less than the one that stands, which is `far` at first.
/// A negative `k` means that none did.
pub open spec fn is_standing<T, O: Bounds<T>>(
    ops: &O,
    far: T,
    values: Seq<T>,
    n: nat,
    k: int,
) -> bool
    decreases n,
{
    if n == 0 {
        k == -1
    } else {
        let v = values[n - 1];
        ||| k == n - 1 && exists|j: int|
            is_standing(ops, far, values, (n - 1) as nat, j) && #[trigger] crate::scalar::says_less(ops, v, standing(values, far, j), true)
        ||| is_standing(ops, far, values, (n - 1) as nat, k) && crate::scalar::says_less(ops, v, standing(values, far, k), false)
    }
}

/// In exact arithmetic the candidate that stands at the end is the first of
/// those with the least value below `far`, and there is none if no value is
/// below it.
pub proof fn law_standing_is_first_least<T, O: Bounds<T>>(
    ops: &O,
    value: spec_fn(T) -> real,
    far: T,
    values: Seq<T>,
    n: nat,
    k: int,
)
    requires
        n <= values.len(),
        crate::scalar::compares(ops, value),
        is_standing(ops, far, values, n, k),
    ensures
        -1 <= k < n,
        k >= 0 ==> value(values[k]) < value(far),
        forall|i: int| 0 <= i < n ==> value(standing(values, far, k)) <= value(#[trigger] values[i]),
        forall|i: int| 0 <= i < k ==> value(values[k]) < value(#[trigger] values[i]),
    decreases n,
{
    if n > 0 {
        let v = values[n - 1];
        if is_standing(ops, far, values, (n - 1) as nat, k) && crate::scalar::says_less(ops, v, standing(values, far, k), false) {
            law_standing_is_first_least(ops, value, far, values, (n - 1) as nat, k);
        } else {
            let j = choose|j: int|
                is_standing(ops, far, values, (n - 1) as nat, j) && #[trigger] crate::scalar::says_less(ops, v, standing(values, far, j), true);
            law_standing_is_first_least(ops, value, far, values, (n - 1) as nat, j);
        }
    }
}

/// The nearest triangle to a point: how far it is, which one it is, and where
/// on it the nearest point lies.
#[derive(Debug, Clone)]
pub struct Nearest<T> {
    pub distance: T,
    pub face: u32,
    pub barycentric: [T; 3],
}

/// The operations of the search for the nearest triangle. Nothing is taken for
/// granted of what they return.
pub trait SearchOps<T>: NearestOps<T> + Bounds<T> {
    /// The square root.
    fn root(&self, a: T) -> T;
}

/// `square` is the square of the distance of `p` from the triangle, and
/// `shares` is where on it the nearest point lies.
pub open spec fn is_measured<T, O: SearchOps<T>>(
    ops: &O,
    zero: T,
    one: T,
    vertices: Seq<[T; 3]>,
    tri: [u32; 3],
    p: [T; 3],
    square: T,
    shares: [T; 3],
) -> bool {
    exists|foot: Foot<T>, way: [T; 3]|
        {
            &&& #[trigger] crate::utils::triangle::is_foot(
                ops,
                p,
                vertices[tri@[0] as int],
                vertices[tri@[1] as int],
                vertices[tri@[2] as int],
                zero,
                one,
                foot,
            )
            &&& #[trigger] crate::utils::distance::is_way(ops, p@, foot.point@, way)
            &&& crate::rotation::is_inner(ops, way@, way@, square)
            &&& shares == foot.shares
        }
}

fn measured<T: Copy, O: SearchOps<T>>(
    p: &[T; 3],
    vertices: &Vec<[T; 3]>,
    tri: &[u32; 3],
    zero: T,
    one: T,
    ops: &O,
) -> (r: (T, [T; 3]))
    requires
        tri@[0] < vertices@.len(),
        tri@[1] < vertices@.len(),
        tri@[2] < vertices@.len(),
    ensures
        is_measured(ops, zero, one, vertices@, *tri, *p, r.0, r.1),
{
    let a = vertices[tri[0] as usize];
    let b = vertices[tri[1] as usize];
    let c = vertices[tri[2] as usize];
    let foot = closest_point_on_triangle(p, &a, &b, &c, zero, one, ops);
    let between = way(p, &foot.point, ops);
    let square = inner(ops, &between, &between);
    assert(crate::utils::distance::is_way(ops, p@, foot.point@, between));
    (square, foot.shares)
}

/// The measurements of all triangles.
pub open spec fn are_measured<T, O: SearchOps<T>>(
    ops: &O,
    zero: T,
    one: T,
    vertices: Seq<[T; 3]>,
    faces: Seq<[u32; 3]>,
    p: [T; 3],
    squares: Seq<T>,
    shares: Seq<[T; 3]>,
) -> bool {
    &&& squares.len() == faces.len()
    &&& shares.len() == faces.len()
    &&& forall|f: int|
        #![trigger squares[f]]
        #![trigger shares[f]]
        0 <= f < faces.len() ==> is_measured(
            ops,
            zero,
            one,
            vertices,
            faces[f],
            p,
            squares[f],
            shares[f],
        )
}

/// `r` is the triangle that stands when all were offered in order, at the root
/// of its square distance; where none did, the first corner of the first one,
/// at the root of `far`.
pub open spec fn is_nearest<T, O: SearchOps<T>>(
    ops: &O,
    far: T,
    zero: T,
    one: T,
    vertices: Seq<[T; 3]>,
    faces: Seq<[u32; 3]>,
    p: [T; 3],
    r: Nearest<T>,
) -> bool {
    exists|squares: Seq<T>, shares: Seq<[T; 3]>, k: int|
        {
            &&& #[trigger] are_measured(ops, zero, one, vertices, faces, p, squares, shares)
            &&& #[trigger] is_standing(ops, far, squares, faces.len(), k)
            &&& call_ensures(O::root, (ops, standing(squares, far, k)), r.distance)
            &&& if k < 0 {
                r.face == 0 && r.barycentric@ == seq![one, zero, zero]
            } else {
                r.face == k as u32 && r.barycentric == shares[k]
            }
        }
}

fn nearest_triangle<T: Copy, O: SearchOps<T>>(
    p: &[T; 3],
    vertices: &Vec<[T; 3]>,
    faces: &Vec<[u32; 3]>,
    far: T,
    zero: T,
    one: T,
    ops: &O,
) -> (r: Nearest<T>)
    requires
        corners_within(faces@, vertices@.len() as int),
    ensures
        is_nearest(ops, far, zero, one, vertices@, faces@, *p, r),
{
    let mut best: T = far;
    let mut face: u32 = 0;
    let mut barycentric = [one, zero, zero];
    let ghost mut squares: Seq<T> = Seq::empty();
    let ghost mut shares: Seq<[T; 3]> = Seq::empty();
    let ghost mut k: int = -1;
    let n: usize = faces.len();
    for f in 0..n
        invariant
            n == faces@.len(),
            corners_within(faces@, vertices@.len() as int),
            squares.len() == f,
            shares.len() == f,
            -1 <= k < f,
            forall|j: int|
                #![trigger squares[j]]
                #![trigger shares[j]]
                0 <= j < f ==> is_measured(
                    ops,
                    zero,
                    one,
                    vertices@,
                    faces@[j],
                    *p,
                    squares[j],
                    shares[j],
                ),
            is_standing(ops, far, squares, f as nat, k),
            best == standing(squares, far, k),
            if k < 0 {
                face == 0 && barycentric@ =~= seq![one, zero, zero]
            } else {
                face == k as u32 && barycentric == shares[k]
            },
    {
        proof {
            assert(faces@[f as int]@[0] < vertices@.len());
            assert(faces@[f as int]@[1] < vertices@.len());
            assert(faces@[f as int]@[2] < vertices@.len());
        }
        let (square, share) = measured(p, vertices, &faces[f], zero, one, ops);
        let ghost before = squares;
        proof {
            squares = squares.push(square);
            shares = shares.push(share);
            lemma_standing_prefix(ops, far, before, squares, f as nat, k);
            assert(standing(squares, far, k) == standing(before, far, k));
        }
        if ops.less(square, best) {
            best = square;
            face = f as u32;
            barycentric = share;
            proof {
                assert(crate::scalar::says_less(
                    ops,
                    squares[f as int],
                    standing(squares, far, k),
                    true,
                ));
                k = f as int;
            }
        }
    }
    proof {
        assert(are_measured(ops, zero, one, vertices@, faces@, *p, squares, shares));
    }
    Nearest { distance: ops.root(best), face, barycentric }
}

/// What stands after some squares is decided by those squares.
pub proof fn lemma_standing_prefix<T, O: Bounds<T>>(
    ops: &O,
    far: T,
    a: Seq<T>,
    b: Seq<T>,
    n: nat,
    k: int,
)
    requires
        n <= a.len(),
        n <= b.len(),
        forall|i: int| 0 <= i < n ==> a[i] == b[i],
        is_standing(ops, far, a, n, k),
    ensures
        is_standing(ops, far, b, n, k),
        -1 <= k < n,
    decreases n,
{
    if n > 0 {
        let v = a[n - 1];
        if is_standing(ops, far, a, (n - 1) as nat, k) && crate::scalar::says_less(ops, v, standing(a, far, k), false) {
            lemma_standing_prefix(ops, far, a, b, (n - 1) as nat, k);
            assert(standing(a, far, k) == standing(b, far, k));
        } else {
            let j = choose|j: int|
                is_standing(ops, far, a, (n - 1) as nat, j) && #[trigger] crate::scalar::says_less(ops, v, standing(a, far, j), true);
            lemma_standing_prefix(ops, far, a, b, (n - 1) as nat, j);
            assert(crate::scalar::says_less(ops, b[n - 1], standing(b, far, j), true));
        }
    }
}

/// The corners of the triangles are vertices.
pub open spec fn corners_within(faces: Seq<[u32; 3]>, vertices: int) -> bool {
    forall|f: int, c: int|
        0 <= f < faces.len() && 0 <= c < 3 ==> #[trigger] faces[f]@[c] < vertices
}

/// For each point the nearest triangle of a mesh, by its distance: of triangles
/// at one distance the first is taken. A triangle that is not nearer than
/// `far`, a square distance, does not count.
pub fn point_to_mesh_distance_and_face_uvs<T: Copy, O: SearchOps<T>>(
    points: &Vec<[T; 3]>,
    vertices: &Vec<[T; 3]>,
    faces: &Vec<[u32; 3]>,
    far: T,
    zero: T,
    one: T,
    ops: &O,
) -> (r: Vec<Nearest<T>>)
    requires
        corners_within(faces@, vertices@.len() as int),
    ensures
        r@.len() == points@.len(),
        forall|i: int|
            0 <= i < points@.len() ==> is_nearest(
                ops,
                far,
                zero,
                one,
                vertices@,
                faces@,
                points@[i],
                #[trigger] r@[i],
            ),
{
    let mut r: Vec<Nearest<T>> = Vec::new();
    for i in 0..points.len()
        invariant
            corners_within(faces@, vertices@.len() as int),
            r@.len() == i,
            forall|j: int|
                0 <= j < i ==> is_nearest(
                    ops,
                    far,
                    zero,
                    one,
                    vertices@,
                    faces@,
                    points@[j],
                    #[trigger] r@[j],
                ),
    {
        r.push(nearest_triangle(&points[i], vertices, faces, far, zero, one, ops));
    }
    r
}

} // verus!
