//! What the normals, the triangles and the distances of meshes come to in exact
//! arithmetic.
use vstd::prelude::*;

use crate::models::motions::Shift;
use crate::scalar::{Arithmetic, Bounds, Division, Lengths, Signs};
use crate::utils::mean::MeanOps;
use crate::utils::mesh::{Nearest, SearchOps};
use crate::utils::triangle::Foot;

verus! {

/// The normal of a triangle by its corners: at right angles to it, on the side from which
/// the corners go round against the clock, and twice as long as it is large.
pub open spec fn corner_normal<T>(
    value: spec_fn(T) -> real,
    vertices: Seq<[T; 3]>,
    t: [u32; 3],
) -> Shift {
    let a = crate::models::motions::row_seen(value, vertices[t@[0] as int]@);
    let b = crate::models::motions::row_seen(value, vertices[t@[1] as int]@);
    let c = crate::models::motions::row_seen(value, vertices[t@[2] as int]@);
    crate::models::turn_laws::crossed(
        crate::models::motions::plus(b, crate::models::motions::minus(a)),
        crate::models::motions::plus(c, crate::models::motions::minus(a)),
    )
}

/// The sum of the normals of the first `n` triangles at a vertex, once for each corner
/// that is there.
pub open spec fn normals_at<T>(
    value: spec_fn(T) -> real,
    vertices: Seq<[T; 3]>,
    triangles: Seq<[u32; 3]>,
    n: nat,
    i: int,
) -> Shift
    decreases n,
{
    if n == 0 {
        crate::models::motions::origin()
    } else {
        let t = triangles[n - 1];
        let before = normals_at(value, vertices, triangles, (n - 1) as nat, i);
        let once = corner_normal(value, vertices, t);
        let a = if t@[0] == i {
            crate::models::motions::plus(before, once)
        } else {
            before
        };
        let b = if t@[1] == i {
            crate::models::motions::plus(a, once)
        } else {
            a
        };
        if t@[2] == i {
            crate::models::motions::plus(b, once)
        } else {
            b
        }
    }
}

proof fn lemma_triangle_normal<T, O: Arithmetic<T>>(
    ops: &O,
    vertices: Seq<[T; 3]>,
    t: [u32; 3],
    n: [T; 3],
    value: spec_fn(T) -> real,
)
    requires
        crate::scalar::is_exact(ops, value),
        crate::utils::normals::is_triangle_normal(ops, vertices, t, n@),
    ensures
        crate::models::motions::row_seen(value, n@) == corner_normal(value, vertices, t),
{
    let (a, b, c) = (
        vertices[t@[0] as int],
        vertices[t@[1] as int],
        vertices[t@[2] as int],
    );
    let (u, v) = choose|u: [T; 3], v: [T; 3]|
        {
            &&& #[trigger] crate::utils::normals::is_edge(ops, b@, a@, u@)
            &&& #[trigger] crate::utils::normals::is_edge(ops, c@, a@, v@)
            &&& crate::kinematics::bone_poses::is_cross(ops, u@, v@, n@)
        };
    crate::models::axis_laws::lemma_cross_seen(ops, u@, v@, n@, value);
    assert(crate::models::motions::row_seen(value, u@) == crate::models::motions::plus(
        crate::models::motions::row_seen(value, b@),
        crate::models::motions::minus(crate::models::motions::row_seen(value, a@)),
    ));
    assert(crate::models::motions::row_seen(value, v@) == crate::models::motions::plus(
        crate::models::motions::row_seen(value, c@),
        crate::models::motions::minus(crate::models::motions::row_seen(value, a@)),
    ));
}

/// One corner.
proof fn lemma_corner<T, O: Arithmetic<T>>(
    ops: &O,
    zero: T,
    vertices: Seq<[T; 3]>,
    triangles: Seq<[u32; 3]>,
    p: nat,
    i: int,
    sum: [T; 3],
    value: spec_fn(T) -> real,
) -> (before: [T; 3])
    requires
        crate::scalar::is_exact(ops, value),
        p > 0,
        crate::utils::normals::is_normal_sum(ops, zero, vertices, triangles, p, i, sum),
    ensures
        crate::utils::normals::is_normal_sum(
            ops,
            zero,
            vertices,
            triangles,
            (p - 1) as nat,
            i,
            before,
        ),
        crate::models::motions::row_seen(value, sum@) == if triangles[(p - 1) / 3]@[(p - 1) % 3]
            == i {
            crate::models::motions::plus(
                crate::models::motions::row_seen(value, before@),
                corner_normal(value, vertices, triangles[(p - 1) / 3]),
            )
        } else {
            crate::models::motions::row_seen(value, before@)
        },
{
    let t = triangles[(p - 1) / 3];
    if t@[(p - 1) % 3] == i {
        let (before, n) = choose|before: [T; 3], n: [T; 3]|
            {
                &&& crate::utils::normals::is_normal_sum(
                    ops,
                    zero,
                    vertices,
                    triangles,
                    (p - 1) as nat,
                    i,
                    before,
                )
                &&& crate::utils::normals::is_triangle_normal(ops, vertices, t, n@)
                &&& #[trigger] crate::utils::normals::is_vector_sum(ops, before@, n@, sum@)
            };
        lemma_triangle_normal(ops, vertices, t, n, value);
        before
    } else {
        sum
    }
}

proof fn lemma_normals_at<T, O: Arithmetic<T>>(
    ops: &O,
    zero: T,
    vertices: Seq<[T; 3]>,
    triangles: Seq<[u32; 3]>,
    n: nat,
    i: int,
    sum: [T; 3],
    value: spec_fn(T) -> real,
)
    requires
        crate::scalar::is_exact(ops, value),
        value(zero) == 0 as real,
        crate::utils::normals::is_normal_sum(
            ops,
            zero,
            vertices,
            triangles,
            (3 * n) as nat,
            i,
            sum,
        ),
    ensures
        crate::models::motions::row_seen(value, sum@) == normals_at(
            value,
            vertices,
            triangles,
            n,
            i,
        ),
    decreases n,
{
    if n > 0 {
        let p = (3 * n) as nat;
        assert((p - 1) / 3 == n - 1 && (p - 1) % 3 == 2);
        assert((p - 2) / 3 == n - 1 && (p - 2) % 3 == 1);
        assert((p - 3) / 3 == n - 1 && (p - 3) % 3 == 0);
        let b = lemma_corner(ops, zero, vertices, triangles, p, i, sum, value);
        let q = (p - 1) as nat;
        let a = lemma_corner(ops, zero, vertices, triangles, q, i, b, value);
        let r = (q - 1) as nat;
        let before = lemma_corner(ops, zero, vertices, triangles, r, i, a, value);
        assert((r - 1) as nat == (3 * (n - 1)) as nat);
        lemma_normals_at(ops, zero, vertices, triangles, (n - 1) as nat, i, before, value);
    }
}

/// In exact arithmetic the normal of a vertex points along the sum of the normals of the
/// triangles around it, in the direction of that sum and not against it, and has
/// length one, or none where the sum has none.
pub proof fn law_normals_point_outwards<T: Copy, O: Division<T> + Lengths<T> + Signs<T>>(
    ops: &O,
    vertices: Vec<[T; 3]>,
    faces: Vec<Vec<u32>>,
    zero: T,
    r: Vec<[T; 3]>,
    triangles: Vec<[u32; 3]>,
    value: spec_fn(T) -> real,
    i: int,
) -> (length: real)
    requires
        crate::scalar::is_exact(ops, value),
        crate::scalar::divides_exactly(ops, value),
        crate::scalar::tells_signs(ops, value),
        crate::utils::normals::measures_lengths(ops, value),
        value(zero) == 0 as real,
        call_ensures(
            crate::utils::normals::smooth_vertex_normals::<T, O>,
            (&vertices, &faces, zero, ops),
            r,
        ),
        call_ensures(crate::utils::normals::fan_triangles, (&faces,), triangles),
        0 <= i < vertices@.len(),
    ensures
        r@.len() == vertices@.len(),
        ({
            let sum = normals_at(value, vertices@, triangles@, triangles@.len(), i);
            let n = crate::models::motions::row_seen(value, r@[i]@);
            &&& length >= 0 as real
            &&& length * length == crate::models::motions::dot(sum, sum)
            &&& length > 0 as real ==> crate::models::turn_laws::scaled(length, n) == sum
            &&& length == 0 as real ==> n == crate::models::motions::origin()
        }),
{
    let ts = triangles@;
    assert(ts == crate::utils::normals::fans(faces@, faces@.len()));
    assert(crate::utils::normals::is_smooth_normal(ops, zero, vertices@, ts, i, r@[i]));
    let sum = choose|sum: [T; 3]| #[trigger]
        crate::utils::normals::is_normal_sum(
            ops,
            zero,
            vertices@,
            ts,
            (3 * ts.len()) as nat,
            i,
            sum,
        ) && crate::utils::normals::is_unit_of(ops, zero, sum, r@[i]@);
    lemma_normals_at(ops, zero, vertices@, ts, ts.len(), i, sum, value);
    let (length, long) = choose|length: T, long: bool|
        {
            &&& #[trigger] crate::scalar::length_of(ops, sum, length)
            &&& #[trigger] crate::scalar::says_positive(ops, length, long)
            &&& if long {
                &&& crate::scalar::quotient_of(ops, sum@[0], length, r@[i]@[0])
                &&& crate::scalar::quotient_of(ops, sum@[1], length, r@[i]@[1])
                &&& crate::scalar::quotient_of(ops, sum@[2], length, r@[i]@[2])
            } else {
                r@[i]@ == seq![zero, zero, zero]
            }
        };
    let l = value(length);
    if l > 0 as real {
        lemma_back(value(sum@[0]), l);
        lemma_back(value(sum@[1]), l);
        lemma_back(value(sum@[2]), l);
    }
    l
}

proof fn lemma_back(a: real, l: real)
    requires
        l > 0 as real,
    ensures
        l * (a / l) == a,
{
    let q = a / l;
    assert(l * q == a) by (nonlinear_arith)
        requires
            q == a / l,
            l > 0 as real,
    ;
}

/// How many triangles the fans of the first `n` faces have.
pub open spec fn fan_size(faces: Seq<Vec<u32>>, n: nat) -> nat
    decreases n,
{
    if n == 0 {
        0
    } else {
        fan_size(faces, (n - 1) as nat) + if faces[n - 1]@.len() < 3 {
            0nat
        } else {
            (faces[n - 1]@.len() - 2) as nat
        }
    }
}

proof fn lemma_fan(face: Seq<u32>, k: int)
    ensures
        crate::utils::normals::fan(face).len() == if face.len() < 3 {
            0
        } else {
            face.len() - 2
        },
        0 <= k < face.len() - 2 ==> crate::utils::normals::fan(face)[k]@ == seq![
            face[0],
            face[k + 1],
            face[k + 2],
        ],
    decreases face.len(),
{
    if face.len() >= 3 {
        let less = face.drop_last();
        lemma_fan(less, k);
        if k == face.len() - 3 {
            assert(crate::utils::normals::fan(face)[k]@ =~= seq![face[0], face[k + 1], face[k + 2]]);
        } else if 0 <= k < face.len() - 2 {
            assert(crate::utils::normals::fan(face)[k] == crate::utils::normals::fan(less)[k]);
        }
    }
}

proof fn lemma_fans(faces: Seq<Vec<u32>>, n: nat, f: int, k: int)
    requires
        n <= faces.len(),
    ensures
        crate::utils::normals::fans(faces, n).len() == fan_size(faces, n),
        0 <= f < n && 0 <= k < faces[f]@.len() - 2 ==> {
            &&& fan_size(faces, f as nat) + k < fan_size(faces, n)
            &&& crate::utils::normals::fans(faces, n)[fan_size(faces, f as nat) + k]@ == seq![
                faces[f]@[0],
                faces[f]@[k + 1],
                faces[f]@[k + 2],
            ]
        },
    decreases n,
{
    if n > 0 {
        lemma_fans(faces, (n - 1) as nat, f, k);
        lemma_fan(faces[n - 1]@, k);
    }
}

/// A face is cut into triangles from its first corner, which go round as the face does.
pub proof fn law_fans_keep_orientation(
    faces: Vec<Vec<u32>>,
    triangles: Vec<[u32; 3]>,
    f: int,
    k: int,
)
    requires
        call_ensures(crate::utils::normals::fan_triangles, (&faces,), triangles),
        0 <= f < faces@.len(),
        0 <= k < faces@[f]@.len() - 2,
    ensures
        triangles@.len() == fan_size(faces@, faces@.len()),
        fan_size(faces@, f as nat) + k < triangles@.len(),
        triangles@[fan_size(faces@, f as nat) + k]@ == seq![
            faces@[f]@[0],
            faces@[f]@[k + 1],
            faces@[f]@[k + 2],
        ],
{
    lemma_fans(faces@, faces@.len(), f, k);
}

/// The square of the distance of two vertices.
pub open spec fn apart<T>(value: spec_fn(T) -> real, a: [T; 3], b: [T; 3]) -> real {
    let (x, y, z) = (
        value(a@[0]) - value(b@[0]),
        value(a@[1]) - value(b@[1]),
        value(a@[2]) - value(b@[2]),
    );
    x * x + y * y + z * z
}

proof fn lemma_distance<T, O: Lengths<T>>(
    ops: &O,
    a: [T; 3],
    b: [T; 3],
    d: T,
    value: spec_fn(T) -> real,
)
    requires
        crate::scalar::is_exact(ops, value),
        crate::utils::normals::measures_lengths(ops, value),
        crate::utils::distance::is_distance(ops, a@, b@, d),
    ensures
        value(d) >= 0 as real,
        value(d) * value(d) == apart(value, a, b),
{
    let way = choose|way: [T; 3]| #[trigger]
        crate::utils::distance::is_way(ops, a@, b@, way) && crate::scalar::length_of(ops, way, d);
    assert(crate::scalar::difference_of(ops, a@[0], b@[0], way@[0]));
    assert(crate::scalar::difference_of(ops, a@[1], b@[1], way@[1]));
    assert(crate::scalar::difference_of(ops, a@[2], b@[2], way@[2]));
}

proof fn lemma_squares_compare(x: real, y: real)
    requires
        x >= 0 as real,
        y >= 0 as real,
    ensures
        x < y <==> x * x < y * y,
{
    assert(x < y ==> x * x < y * y) by (nonlinear_arith)
        requires
            x >= 0 as real,
            y >= 0 as real,
    ;
    assert(x >= y ==> x * x >= y * y) by (nonlinear_arith)
        requires
            x >= 0 as real,
            y >= 0 as real,
    ;
}

proof fn lemma_triangles(faces: Seq<Vec<u32>>, first: Seq<bool>, n: nat, f: int)
    requires
        n <= faces.len(),
        forall|i: int|
            0 <= i < faces.len() ==> (#[trigger] faces[i])@.len() == 3 || faces[i]@.len() == 4,
    ensures
        crate::utils::mesh::triangles(faces, first, n).len() == fan_size(faces, n),
        0 <= f < n ==> {
            let at = fan_size(faces, f as nat) as int;
            let all = crate::utils::mesh::triangles(faces, first, n);
            let some = crate::utils::mesh::face_triangles(faces[f]@, first[f]);
            &&& at + some.len() <= all.len()
            &&& all[at] == some[0]
            &&& some.len() == 2 ==> all[at + 1] == some[1]
        },
    decreases n,
{
    if n > 0 {
        assert(faces[n - 1]@.len() == 3 || faces[n - 1]@.len() == 4);
        lemma_triangles(faces, first, (n - 1) as nat, f);
    }
}

/// In exact arithmetic a face with four corners is cut along the shorter of its diagonals,
/// along the second where they are equal, and the two triangles go round as the face does.
/// A face with three corners stays.
pub proof fn law_quads_are_cut_short<T: Copy, O: Lengths<T> + Bounds<T>>(
    ops: &O,
    vertices: Vec<[T; 3]>,
    faces: Vec<Vec<u32>>,
    r: Vec<[u32; 3]>,
    value: spec_fn(T) -> real,
    f: int,
)
    requires
        crate::scalar::is_exact(ops, value),
        crate::scalar::compares(ops, value),
        crate::utils::normals::measures_lengths(ops, value),
        call_ensures(
            crate::utils::mesh::triangulate_faces::<T, O>,
            (&vertices, &faces, ops),
            r,
        ),
        forall|i: int|
            0 <= i < faces@.len() ==> (#[trigger] faces@[i])@.len() == 3 || faces@[i]@.len() == 4,
        0 <= f < faces@.len(),
    ensures
        r@.len() == fan_size(faces@, faces@.len()),
        ({
            let at = fan_size(faces@, f as nat) as int;
            let (a, b, c, d) = (faces@[f]@[0], faces@[f]@[1], faces@[f]@[2], faces@[f]@[3]);
            if faces@[f]@.len() == 3 {
                r@[at]@ == seq![a, b, c]
            } else if apart(value, vertices@[a as int], vertices@[c as int]) < apart(
                value,
                vertices@[b as int],
                vertices@[d as int],
            ) {
                r@[at]@ == seq![a, b, c] && r@[at + 1]@ == seq![c, d, a]
            } else {
                r@[at]@ == seq![a, b, d] && r@[at + 1]@ == seq![d, b, c]
            }
        }),
{
    assert(crate::utils::mesh::are_triangulated(ops, vertices@, faces@, r@));
    let first = choose|first: Seq<bool>| #[trigger]
        crate::utils::mesh::are_diagonals(ops, vertices@, faces@, first)
            && crate::utils::mesh::corners(r@) =~~= crate::utils::mesh::triangles(
            faces@,
            first,
            faces@.len(),
        );
    let all = crate::utils::mesh::triangles(faces@, first, faces@.len());
    let corners = crate::utils::mesh::corners(r@);
    lemma_triangles(faces@, first, faces@.len(), f);
    let at = fan_size(faces@, f as nat) as int;
    assert(faces@[f]@.len() == 3 || faces@[f]@.len() == 4);
    assert(corners.len() == all.len());
    assert(corners[at] =~= all[at]);
    assert(corners[at] == r@[at]@);
    if faces@[f]@.len() == 4 {
        let (a, b, c, d) = (faces@[f]@[0], faces@[f]@[1], faces@[f]@[2], faces@[f]@[3]);
        assert(corners[at + 1] =~= all[at + 1]);
        assert(corners[at + 1] == r@[at + 1]@);
        assert(crate::utils::mesh::is_shorter(ops, vertices@, a, b, c, d, first[f]));
        let (x, y) = choose|x: T, y: T|
            {
                &&& #[trigger] crate::utils::distance::is_distance(
                    ops,
                    vertices@[a as int]@,
                    vertices@[c as int]@,
                    x,
                )
                &&& #[trigger] crate::utils::distance::is_distance(
                    ops,
                    vertices@[b as int]@,
                    vertices@[d as int]@,
                    y,
                )
                &&& crate::scalar::says_less(ops, x, y, first[f])
            };
        lemma_distance(ops, vertices@[a as int], vertices@[c as int], x, value);
        lemma_distance(ops, vertices@[b as int], vertices@[d as int], y, value);
        lemma_squares_compare(value(x), value(y));
    }
}

/// In exact arithmetic the distance of two bodies is the mean of the distances of their
/// vertices, in millimeters.
pub proof fn law_mean_distances<T: Copy, O: MeanOps<T>>(
    ops: &O,
    a: Vec<Vec<[T; 3]>>,
    b: Vec<Vec<[T; 3]>>,
    zero: T,
    r: Vec<T>,
    value: spec_fn(T) -> real,
    e: int,
) -> (distances: Seq<real>)
    requires
        crate::scalar::is_exact(ops, value),
        crate::utils::normals::measures_lengths(ops, value),
        crate::models::shape_laws::averages_exactly(ops, value),
        forall|x: T, y: T| #[trigger]
            call_ensures(O::millimeters, (ops, x), y) ==> value(y) == 1000 as real * value(x),
        value(zero) == 0 as real,
        call_ensures(
            crate::utils::mean::per_element_distances::<T, O>,
            (&a, &b, zero, ops),
            r,
        ),
        0 <= e < a@.len(),
        a@[e]@.len() > 0,
    ensures
        r@.len() == a@.len(),
        distances.len() == a@[e]@.len(),
        forall|i: int|
            0 <= i < distances.len() ==> #[trigger] distances[i] >= 0 as real && distances[i]
                * distances[i] == apart(value, a@[e]@[i], b@[e]@[i]),
        value(r@[e]) * distances.len() as real == 1000 as real * crate::utils::sums::sum(
            |i: int| distances[i],
            distances.len(),
        ),
{
    assert(crate::utils::mean::is_mean_distance(ops, zero, a@[e]@, b@[e]@, r@[e]));
    assert(a@[e].len() == a@[e]@.len());
    lemma_mean_distance(ops, zero, a@[e]@, b@[e]@, r@[e], value)
}

/// The same of one element.
pub proof fn lemma_mean_distance<T, O: MeanOps<T>>(
    ops: &O,
    zero: T,
    xs: Seq<[T; 3]>,
    ys: Seq<[T; 3]>,
    r: T,
    value: spec_fn(T) -> real,
) -> (distances: Seq<real>)
    requires
        crate::scalar::is_exact(ops, value),
        crate::utils::normals::measures_lengths(ops, value),
        crate::models::shape_laws::averages_exactly(ops, value),
        forall|x: T, y: T| #[trigger]
            call_ensures(O::millimeters, (ops, x), y) ==> value(y) == 1000 as real * value(x),
        value(zero) == 0 as real,
        crate::utils::mean::is_mean_distance(ops, zero, xs, ys, r),
        0 < xs.len() <= usize::MAX,
    ensures
        distances.len() == xs.len(),
        forall|i: int|
            0 <= i < distances.len() ==> #[trigger] distances[i] >= 0 as real && distances[i]
                * distances[i] == apart(value, xs[i], ys[i]),
        value(r) * distances.len() as real == 1000 as real * crate::utils::sums::sum(
            |i: int| distances[i],
            distances.len(),
        ),
{
    let (ds, mean) = choose|ds: Seq<T>, mean: T|
        {
            &&& #[trigger] crate::utils::mean::are_distances(ops, xs, ys, ds)
            &&& #[trigger] crate::utils::mean::is_mean(ops, zero, ds, mean)
            &&& call_ensures(O::millimeters, (ops, mean), r)
        };
    let sum = choose|sum: T| #[trigger]
        crate::utils::shares::is_total(ops, zero, ds, sum) && crate::utils::mean::over_of(
            ops,
            sum,
            ds.len() as usize,
            mean,
        );
    crate::utils::sums::lemma_total(ops, zero, ds, sum, value);
    let out = Seq::new(ds.len(), |i: int| value(ds[i]));
    assert forall|i: int| 0 <= i < out.len() implies #[trigger] out[i] >= 0 as real && out[i]
        * out[i] == apart(value, xs[i], ys[i]) by {
        assert(crate::utils::distance::is_distance(ops, xs[i]@, ys[i]@, ds[i]));
        lemma_distance(ops, xs[i], ys[i], ds[i], value);
    }
    crate::utils::sums::lemma_same_sum(|i: int| out[i], |i: int| value(ds[i]), ds.len());
    let (x, y, n) = (value(r), value(mean), ds.len() as real);
    assert(y * n == value(sum));
    assert(x * n == 1000 as real * (y * n)) by (nonlinear_arith)
        requires
            x == 1000 as real * y,
    ;
    out
}

/// The corners of a triangle.
pub open spec fn corner<T>(
    value: spec_fn(T) -> real,
    vertices: Seq<[T; 3]>,
    faces: Seq<[u32; 3]>,
    f: int,
    c: int,
) -> crate::utils::triangle_laws::Vector {
    crate::utils::triangle_laws::vector(value, vertices[faces[f]@[c] as int]@)
}

/// The triangles have an area.
pub open spec fn are_proper<T>(
    value: spec_fn(T) -> real,
    vertices: Seq<[T; 3]>,
    faces: Seq<[u32; 3]>,
    p: [T; 3],
) -> bool {
    forall|f: int|
        0 <= f < faces.len() ==> crate::utils::triangle_laws::is_proper(
            #[trigger] crate::utils::triangle_laws::numbers(
                crate::utils::triangle_laws::vector(value, p@),
                corner(value, vertices, faces, f, 0),
                corner(value, vertices, faces, f, 1),
                corner(value, vertices, faces, f, 2),
            ),
        )
}

/// In exact arithmetic the distance of a point from a mesh is that of its nearest point:
/// it is the distance from the point of the face that is told, at the shares that are
/// told, and no point of any triangle is nearer. All this where some triangle is nearer
/// than what counts as far.
pub proof fn law_nearest_on_mesh<T: Copy, O: SearchOps<T>>(
    ops: &O,
    points: Vec<[T; 3]>,
    vertices: Vec<[T; 3]>,
    faces: Vec<[u32; 3]>,
    far: T,
    zero: T,
    one: T,
    r: Vec<Nearest<T>>,
    value: spec_fn(T) -> real,
    i: int,
    g: int,
    s: real,
    t: real,
    u: real,
)
    requires
        crate::utils::triangle_laws::is_exact(ops, value),
        crate::scalar::compares(ops, value),
        forall|a: T, d: T| #[trigger]
            call_ensures(O::root, (ops, a), d) ==> value(a) < 0 as real || value(d) >= 0 as real
                && value(d) * value(d) == value(a),
        value(zero) == 0 as real,
        value(one) == 1 as real,
        call_ensures(
            crate::utils::mesh::point_to_mesh_distance_and_face_uvs::<T, O>,
            (&points, &vertices, &faces, far, zero, one, ops),
            r,
        ),
        0 <= i < points@.len(),
        faces@.len() <= u32::MAX,
        are_proper(value, vertices@, faces@, points@[i]),
        0 <= g < faces@.len(),
        s >= 0 as real,
        t >= 0 as real,
        u >= 0 as real,
        s + t + u == 1 as real,
        crate::utils::triangle_laws::square(
            crate::utils::triangle_laws::vector(value, points@[i]@),
            crate::utils::triangle_laws::mix(
                corner(value, vertices@, faces@, g, 0),
                corner(value, vertices@, faces@, g, 1),
                corner(value, vertices@, faces@, g, 2),
                s,
                t,
                u,
            ),
        ) < value(far),
    ensures
        r@.len() == points@.len(),
        ({
            let p = crate::utils::triangle_laws::vector(value, points@[i]@);
            let d = value(r@[i].distance);
            let f = r@[i].face as int;
            let w = r@[i].barycentric@;
            &&& d >= 0 as real
            &&& f < faces@.len()
            &&& value(w[0]) >= 0 as real && value(w[1]) >= 0 as real && value(w[2]) >= 0 as real
            &&& value(w[0]) + value(w[1]) + value(w[2]) == 1 as real
            &&& d * d == crate::utils::triangle_laws::square(
                p,
                crate::utils::triangle_laws::mix(
                    corner(value, vertices@, faces@, f, 0),
                    corner(value, vertices@, faces@, f, 1),
                    corner(value, vertices@, faces@, f, 2),
                    value(w[0]),
                    value(w[1]),
                    value(w[2]),
                ),
            )
            &&& d * d <= crate::utils::triangle_laws::square(
                p,
                crate::utils::triangle_laws::mix(
                    corner(value, vertices@, faces@, g, 0),
                    corner(value, vertices@, faces@, g, 1),
                    corner(value, vertices@, faces@, g, 2),
                    s,
                    t,
                    u,
                ),
            )
        }),
{
    let point = points@[i];
    assert(crate::utils::mesh::is_nearest(
        ops,
        far,
        zero,
        one,
        vertices@,
        faces@,
        point,
        r@[i],
    ));
    let (squares, shares, k) = choose|squares: Seq<T>, shares: Seq<[T; 3]>, k: int|
        {
            &&& #[trigger] crate::utils::mesh::are_measured(
                ops,
                zero,
                one,
                vertices@,
                faces@,
                point,
                squares,
                shares,
            )
            &&& #[trigger] crate::utils::mesh::is_standing(ops, far, squares, faces@.len(), k)
            &&& call_ensures(
                O::root,
                (ops, crate::utils::mesh::standing(squares, far, k)),
                r@[i].distance,
            )
            &&& if k < 0 {
                r@[i].face == 0 && r@[i].barycentric@ == seq![one, zero, zero]
            } else {
                r@[i].face == k as u32 && r@[i].barycentric == shares[k]
            }
        };
    crate::utils::mesh::law_standing_is_first_least(ops, value, far, squares, faces@.len(), k);
    lemma_measured(ops, zero, one, vertices@, faces@, point, squares, shares, value, g, s, t, u);
    assert(value(squares[g]) < value(far));
    assert(k >= 0);
    lemma_measured(
        ops,
        zero,
        one,
        vertices@,
        faces@,
        point,
        squares,
        shares,
        value,
        k,
        1 as real,
        0 as real,
        0 as real,
    );
    assert(value(squares[k]) <= value(squares[g]));
    let (p, q) = (
        crate::utils::triangle_laws::vector(value, point@),
        crate::utils::triangle_laws::mix(
            corner(value, vertices@, faces@, k, 0),
            corner(value, vertices@, faces@, k, 1),
            corner(value, vertices@, faces@, k, 2),
            value(shares[k]@[0]),
            value(shares[k]@[1]),
            value(shares[k]@[2]),
        ),
    );
    let (x, y, z) = (p.x - q.x, p.y - q.y, p.z - q.z);
    assert(x * x + y * y + z * z >= 0 as real) by (nonlinear_arith);
    assert(value(squares[k]) >= 0 as real);
}

proof fn lemma_measured<T, O: SearchOps<T>>(
    ops: &O,
    zero: T,
    one: T,
    vertices: Seq<[T; 3]>,
    faces: Seq<[u32; 3]>,
    p: [T; 3],
    squares: Seq<T>,
    shares: Seq<[T; 3]>,
    value: spec_fn(T) -> real,
    f: int,
    s: real,
    t: real,
    u: real,
)
    requires
        crate::utils::triangle_laws::is_exact(ops, value),
        value(zero) == 0 as real,
        value(one) == 1 as real,
        crate::utils::mesh::are_measured(
            ops,
            zero,
            one,
            vertices,
            faces,
            p,
            squares,
            shares,
        ),
        are_proper(value, vertices, faces, p),
        0 <= f < faces.len(),
        s >= 0 as real,
        t >= 0 as real,
        u >= 0 as real,
        s + t + u == 1 as real,
    ensures
        value(shares[f]@[0]) >= 0 as real,
        value(shares[f]@[1]) >= 0 as real,
        value(shares[f]@[2]) >= 0 as real,
        value(shares[f]@[0]) + value(shares[f]@[1]) + value(shares[f]@[2]) == 1 as real,
        value(squares[f]) == crate::utils::triangle_laws::square(
            crate::utils::triangle_laws::vector(value, p@),
            crate::utils::triangle_laws::mix(
                corner(value, vertices, faces, f, 0),
                corner(value, vertices, faces, f, 1),
                corner(value, vertices, faces, f, 2),
                value(shares[f]@[0]),
                value(shares[f]@[1]),
                value(shares[f]@[2]),
            ),
        ),
        value(squares[f]) <= crate::utils::triangle_laws::square(
            crate::utils::triangle_laws::vector(value, p@),
            crate::utils::triangle_laws::mix(
                corner(value, vertices, faces, f, 0),
                corner(value, vertices, faces, f, 1),
                corner(value, vertices, faces, f, 2),
                s,
                t,
                u,
            ),
        ),
{
    assert(crate::utils::mesh::is_measured(
        ops,
        zero,
        one,
        vertices,
        faces[f],
        p,
        squares[f],
        shares[f],
    ));
    let (a, b, c) = (
        vertices[faces[f]@[0] as int],
        vertices[faces[f]@[1] as int],
        vertices[faces[f]@[2] as int],
    );
    let (foot, way) = choose|foot: Foot<T>, way: [T; 3]|
        {
            &&& #[trigger] crate::utils::triangle::is_foot(ops, p, a, b, c, zero, one, foot)
            &&& #[trigger] crate::utils::distance::is_way(ops, p@, foot.point@, way)
            &&& crate::rotation::is_inner(ops, way@, way@, squares[f])
            &&& shares[f] == foot.shares
        };
    assert(crate::utils::triangle_laws::is_proper(
        crate::utils::triangle_laws::numbers(
            crate::utils::triangle_laws::vector(value, p@),
            corner(value, vertices, faces, f, 0),
            corner(value, vertices, faces, f, 1),
            corner(value, vertices, faces, f, 2),
        ),
    ));
    crate::utils::triangle_laws::law_foot_in_triangle(ops, p, a, b, c, zero, one, foot, value);
    crate::utils::triangle_laws::law_foot_is_nearest(
        ops,
        p,
        a,
        b,
        c,
        zero,
        one,
        foot,
        value,
        s,
        t,
        u,
    );
    crate::models::axis_laws::lemma_inner(ops, way@, way@, squares[f], value);
    assert(crate::scalar::difference_of(ops, p@[0], foot.point@[0], way@[0]));
    assert(crate::scalar::difference_of(ops, p@[1], foot.point@[1], way@[1]));
    assert(crate::scalar::difference_of(ops, p@[2], foot.point@[2], way@[2]));
}

} // verus!
