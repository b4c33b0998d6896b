//! Normals of the vertices of a mesh.
use vstd::prelude::*;

use crate::kinematics::bone_poses::cross;
use crate::scalar::{Arithmetic, Division, Lengths, Signs};

verus! {

/// The triangles of a face: its first corner with each edge that does not
/// touch it.
pub open spec fn fan(face: Seq<u32>) -> Seq<[u32; 3]>
    decreases face.len(),
{
    if face.len() < 3 {
        Seq::empty()
    } else {
        fan(face.drop_last()).push([face[0], face[face.len() - 2], face[face.len() - 1]])
    }
}

/// The triangles of the first `n` faces.
pub open spec fn fans(faces: Seq<Vec<u32>>, n: nat) -> Seq<[u32; 3]>
    decreases n,
{
    if n == 0 {
        Seq::empty()
    } else {
        fans(faces, (n - 1) as nat) + fan(faces[n - 1]@)
    }
}

/// `r` is the difference of two points.
pub open spec fn is_edge<T, O: Arithmetic<T>>(ops: &O, a: Seq<T>, b: Seq<T>, r: Seq<T>) -> bool {
    &&& crate::scalar::difference_of(ops, a[0], b[0], r[0])
    &&& crate::scalar::difference_of(ops, a[1], b[1], r[1])
    &&& crate::scalar::difference_of(ops, a[2], b[2], r[2])
}

fn edge<T: Copy, O: Arithmetic<T>>(ops: &O, a: &[T; 3], b: &[T; 3]) -> (r: [T; 3])
    ensures
        is_edge(ops, a@, b@, r@),
{
    [ops.minus(a[0], b[0]), ops.minus(a[1], b[1]), ops.minus(a[2], b[2])]
}

/// `n` is the cross product of the two edges at the first corner.
pub open spec fn is_triangle_normal<T, O: Arithmetic<T>>(
    ops: &O,
    vertices: Seq<[T; 3]>,
    t: [u32; 3],
    n: Seq<T>,
) -> bool {
    exists|u: [T; 3], v: [T; 3]|
        {
            &&& #[trigger] is_edge(ops, vertices[t@[1] as int]@, vertices[t@[0] as int]@, u@)
            &&& #[trigger] is_edge(ops, vertices[t@[2] as int]@, vertices[t@[0] as int]@, v@)
            &&& crate::kinematics::bone_poses::is_cross(ops, u@, v@, n)
        }
}

/// `r` is the sum of two vectors.
pub open spec fn is_vector_sum<T, O: Arithmetic<T>>(
    ops: &O,
    a: Seq<T>,
    b: Seq<T>,
    r: Seq<T>,
) -> bool {
    &&& crate::scalar::sum_of(ops, a[0], b[0], r[0])
    &&& crate::scalar::sum_of(ops, a[1], b[1], r[1])
    &&& crate::scalar::sum_of(ops, a[2], b[2], r[2])
}

/// `sum` adds up the normals of the triangles that have vertex `i` for a
/// corner, over the first `p` corners.
pub open spec fn is_normal_sum<T, O: Arithmetic<T>>(
    ops: &O,
    zero: T,
    vertices: Seq<[T; 3]>,
    triangles: Seq<[u32; 3]>,
    p: nat,
    i: int,
    sum: [T; 3],
) -> bool
    decreases p,
{
    if p == 0 {
        sum@ == seq![zero, zero, zero]
    } else {
        let t = triangles[(p - 1) / 3];
        if t@[(p - 1) % 3] == i {
            exists|before: [T; 3], n: [T; 3]|
                {
                    &&& is_normal_sum(
                        ops,
                        zero,
                        vertices,
                        triangles,
                        (p - 1) as nat,
                        i,
                        before,
                    )
                    &&& is_triangle_normal(ops, vertices, t, n@)
                    &&& #[trigger] is_vector_sum(ops, before@, n@, sum@)
                }
        } else {
            is_normal_sum(ops, zero, vertices, triangles, (p - 1) as nat, i, sum)
        }
    }
}

/// `r` is `sum` over its length, and zero where it has none.
pub open spec fn is_unit_of<T, O: Division<T> + Lengths<T> + Signs<T>>(
    ops: &O,
    zero: T,
    sum: [T; 3],
    r: Seq<T>,
) -> bool {
    exists|length: T, long: bool|
        {
            &&& #[trigger] crate::scalar::length_of(ops, sum, length)
            &&& #[trigger] crate::scalar::says_positive(ops, length, long)
            &&& if long {
                &&& crate::scalar::quotient_of(ops, sum@[0], length, r[0])
                &&& crate::scalar::quotient_of(ops, sum@[1], length, r[1])
                &&& crate::scalar::quotient_of(ops, sum@[2], length, r[2])
            } else {
                r == seq![zero, zero, zero]
            }
        }
}

/// The corners are vertices.
pub open spec fn corners_within(triangles: Seq<[u32; 3]>, n: int) -> bool {
    forall|t: int, c: int|
        0 <= t < triangles.len() && 0 <= c < 3 ==> (#[trigger] triangles[t]@[c]) < n
}

/// The triangles of the faces.
pub fn fan_triangles(faces: &Vec<Vec<u32>>) -> (r: Vec<[u32; 3]>)
    ensures
        r@ == fans(faces@, faces@.len()),
{
    let mut r: Vec<[u32; 3]> = Vec::new();
    for f in 0..faces.len()
        invariant
            r@ == fans(faces@, f as nat),
    {
        let face = &faces[f];
        let ghost before = r@;
        if face.len() >= 3 {
            let mut k: usize = 2;
            assert(fan(face@.take(2)) =~= Seq::empty());
            while k < face.len()
                invariant
                    2 <= k <= face@.len(),
                    r@ == before + fan(face@.take(k as int)),
                decreases face@.len() - k,
            {
                r.push([face[0], face[k - 1], face[k]]);
                proof {
                    let more = face@.take(k + 1);
                    assert(more.drop_last() =~= face@.take(k as int));
                    assert(r@ =~= before + fan(more));
                }
                k = k + 1;
            }
            assert(face@.take(face@.len() as int) =~= face@);
        } else {
            assert(fan(face@) =~= Seq::empty());
            assert(r@ =~= before + fan(face@));
        }
    }
    r
}

/// The sums change by one corner.
proof fn lemma_next_corner<T, O: Arithmetic<T>>(
    ops: &O,
    zero: T,
    vertices: Seq<[T; 3]>,
    triangles: Seq<[u32; 3]>,
    p: nat,
    before: Seq<[T; 3]>,
    after: Seq<[T; 3]>,
    n: [T; 3],
    at: int,
)
    requires
        forall|i: int|
            0 <= i < before.len() ==> is_normal_sum(
                ops,
                zero,
                vertices,
                triangles,
                p,
                i,
                #[trigger] before[i],
            ),
        is_triangle_normal(ops, vertices, triangles[p as int / 3], n@),
        at == triangles[p as int / 3]@[p as int % 3],
        0 <= at < before.len(),
        after.len() == before.len(),
        is_vector_sum(ops, before[at]@, n@, after[at]@),
        forall|i: int| 0 <= i < after.len() && i != at ==> #[trigger] after[i] == before[i],
    ensures
        forall|i: int|
            0 <= i < after.len() ==> is_normal_sum(
                ops,
                zero,
                vertices,
                triangles,
                (p + 1) as nat,
                i,
                #[trigger] after[i],
            ),
{
    assert forall|i: int| 0 <= i < after.len() implies is_normal_sum(
        ops,
        zero,
        vertices,
        triangles,
        (p + 1) as nat,
        i,
        #[trigger] after[i],
    ) by {
        let q = (p + 1) as nat;
        assert((q - 1) as nat == p);
        assert((q - 1) / 3 == p as int / 3 && (q - 1) % 3 == p as int % 3);
        assert(is_normal_sum(ops, zero, vertices, triangles, (q - 1) as nat, i, before[i]));
        if i == at {
            assert(is_triangle_normal(ops, vertices, triangles[(q - 1) / 3], n@));
            assert(triangles[(q - 1) / 3]@[(q - 1) % 3] == i);
            assert(is_vector_sum(ops, before[i]@, n@, after[i]@));
        } else {
            assert(after[i] == before[i]);
        }
    }
}

fn add_to<T: Copy, O: Arithmetic<T>>(
    sums: &mut Vec<[T; 3]>,
    at: usize,
    n: &[T; 3],
    ops: &O,
)
    requires
        at < old(sums)@.len(),
    ensures
        final(sums)@.len() == old(sums)@.len(),
        is_vector_sum(ops, old(sums)@[at as int]@, n@, final(sums)@[at as int]@),
        forall|i: int|
            0 <= i < final(sums)@.len() && i != at ==> #[trigger] final(sums)@[i]
                == old(sums)@[i],
{
    let s = sums[at];
    let r = [ops.plus(s[0], n[0]), ops.plus(s[1], n[1]), ops.plus(s[2], n[2])];
    sums[at] = r;
}

/// For each vertex the mean direction of the faces around it, each counted by
/// its area: a vector of length 1, or zero where no face meets the vertex.
pub fn smooth_vertex_normals<T: Copy, O: Division<T> + Lengths<T> + Signs<T>>(
    vertices: &Vec<[T; 3]>,
    faces: &Vec<Vec<u32>>,
    zero: T,
    ops: &O,
) -> (r: Vec<[T; 3]>)
    requires
        corners_within(fans(faces@, faces@.len()), vertices@.len() as int),
    ensures
        r@.len() == vertices@.len(),
        forall|i: int|
            0 <= i < r@.len() ==> is_smooth_normal(
                ops,
                zero,
                vertices@,
                fans(faces@, faces@.len()),
                i,
                #[trigger] r@[i],
            ),
{
    let triangles = fan_triangles(faces);
    let mut sums: Vec<[T; 3]> = Vec::new();
    for i in 0..vertices.len()
        invariant
            sums@.len() == i,
            forall|k: int|
                0 <= k < i ==> is_normal_sum(
                    ops,
                    zero,
                    vertices@,
                    triangles@,
                    0,
                    k,
                    #[trigger] sums@[k],
                ),
    {
        let none = [zero, zero, zero];
        assert(none@ =~= seq![zero, zero, zero]);
        sums.push(none);
    }
    for t in 0..triangles.len()
        invariant
            sums@.len() == vertices@.len(),
            corners_within(triangles@, vertices@.len() as int),
            forall|k: int|
                0 <= k < sums@.len() ==> is_normal_sum(
                    ops,
                    zero,
                    vertices@,
                    triangles@,
                    (3 * t) as nat,
                    k,
                    #[trigger] sums@[k],
                ),
    {
        let tri = triangles[t];
        let ghost ts = triangles@;
        assert(ts[t as int]@[0] < vertices@.len());
        assert(ts[t as int]@[1] < vertices@.len());
        assert(ts[t as int]@[2] < vertices@.len());
        let (a, b, c): (usize, usize, usize) = (tri[0] as usize, tri[1] as usize, tri[2] as usize);
        let u = edge(ops, &vertices[b], &vertices[a]);
        let v = edge(ops, &vertices[c], &vertices[a]);
        let n = cross(ops, &u, &v);
        assert(is_triangle_normal(ops, vertices@, ts[t as int], n@));
        let ghost s0 = sums@;
        add_to(&mut sums, a, &n, ops);
        proof {
            lemma_next_corner(ops, zero, vertices@, ts, (3 * t) as nat, s0, sums@, n, a as int);
        }
        let ghost s1 = sums@;
        add_to(&mut sums, b, &n, ops);
        proof {
            lemma_next_corner(ops, zero, vertices@, ts, (3 * t + 1) as nat, s1, sums@, n, b as int);
        }
        let ghost s2 = sums@;
        add_to(&mut sums, c, &n, ops);
        proof {
            lemma_next_corner(ops, zero, vertices@, ts, (3 * t + 2) as nat, s2, sums@, n, c as int);
        }
    }
    let mut r: Vec<[T; 3]> = Vec::new();
    for i in 0..sums.len()
        invariant
            forall|k: int|
                0 <= k < sums@.len() ==> is_normal_sum(
                    ops,
                    zero,
                    vertices@,
                    triangles@,
                    (3 * triangles@.len()) as nat,
                    k,
                    #[trigger] sums@[k],
                ),
            r@.len() == i,
            forall|k: int|
                0 <= k < i ==> is_smooth_normal(
                    ops,
                    zero,
                    vertices@,
                    triangles@,
                    k,
                    #[trigger] r@[k],
                ),
    {
        let sum = sums[i];
        let length = ops.length(&sum);
        let long = ops.positive(length);
        let n = if long {
            [ops.quotient(sum[0], length), ops.quotient(sum[1], length), ops.quotient(sum[2], length)]
        } else {
            [zero, zero, zero]
        };
        proof {
            assert(crate::scalar::length_of(ops, sum, length));
            assert(crate::scalar::says_positive(ops, length, long));
            if !long {
                assert(n@ =~= seq![zero, zero, zero]);
            }
            assert(is_unit_of(ops, zero, sum, n@));
            assert(is_normal_sum(
                ops,
                zero,
                vertices@,
                triangles@,
                (3 * triangles@.len()) as nat,
                i as int,
                sum,
            ));
        }
        r.push(n);
    }
    r
}

/// `n` is the sum of the normals around vertex `i`, brought to length 1.
pub open spec fn is_smooth_normal<T, O: Division<T> + Lengths<T> + Signs<T>>(
    ops: &O,
    zero: T,
    vertices: Seq<[T; 3]>,
    triangles: Seq<[u32; 3]>,
    i: int,
    n: [T; 3],
) -> bool {
    exists|sum: [T; 3]| #[trigger]
        is_normal_sum(ops, zero, vertices, triangles, (3 * triangles.len()) as nat, i, sum)
            && is_unit_of(ops, zero, sum, n@)
}

/// The square of the length of a vector.
pub open spec fn square<T>(value: spec_fn(T) -> real, v: Seq<T>) -> real {
    value(v[0]) * value(v[0]) + value(v[1]) * value(v[1]) + value(v[2]) * value(v[2])
}

/// The length is the root of the sum of the squares.
pub open spec fn measures_lengths<T, O: Lengths<T>>(ops: &O, value: spec_fn(T) -> real) -> bool {
    forall|v: [T; 3], r: T| #[trigger]
        crate::scalar::length_of(ops, v, r) ==> value(r) >= 0 as real && value(r) * value(r)
            == square(value, v@)
}

proof fn lemma_over(a: real, l: real, r: real)
    requires
        l > 0 as real,
        r == a / l,
    ensures
        r * l == a,
{
    assert(r * l == a) by (nonlinear_arith)
        requires
            l > 0 as real,
            r == a / l,
    ;
}

/// In exact arithmetic a smooth normal has length 1, or is zero.
pub proof fn law_unit_normals<T, O: Division<T> + Lengths<T> + Signs<T>>(
    ops: &O,
    zero: T,
    vertices: Seq<[T; 3]>,
    triangles: Seq<[u32; 3]>,
    i: int,
    n: [T; 3],
    value: spec_fn(T) -> real,
)
    requires
        crate::scalar::divides_exactly(ops, value),
        crate::scalar::tells_signs(ops, value),
        measures_lengths(ops, value),
        is_smooth_normal(ops, zero, vertices, triangles, i, n),
    ensures
        square(value, n@) == 1 as real || n@ == seq![zero, zero, zero],
{
    let sum = choose|sum: [T; 3]| #[trigger]
        is_normal_sum(ops, zero, vertices, triangles, (3 * triangles.len()) as nat, i, sum)
            && is_unit_of(ops, zero, sum, n@);
    let (length, long) = choose|length: T, long: bool|
        {
            &&& #[trigger] crate::scalar::length_of(ops, sum, length)
            &&& #[trigger] crate::scalar::says_positive(ops, length, long)
            &&& if long {
                &&& crate::scalar::quotient_of(ops, sum@[0], length, n@[0])
                &&& crate::scalar::quotient_of(ops, sum@[1], length, n@[1])
                &&& crate::scalar::quotient_of(ops, sum@[2], length, n@[2])
            } else {
                n@ == seq![zero, zero, zero]
            }
        };
    if long {
        let l = value(length);
        let (a, b, c) = (value(sum@[0]), value(sum@[1]), value(sum@[2]));
        let (x, y, z) = (value(n@[0]), value(n@[1]), value(n@[2]));
        lemma_over(a, l, x);
        lemma_over(b, l, y);
        lemma_over(c, l, z);
        assert(a * a == (x * x) * (l * l)) by (nonlinear_arith)
            requires
                x * l == a,
        ;
        assert(b * b == (y * y) * (l * l)) by (nonlinear_arith)
            requires
                y * l == b,
        ;
        assert(c * c == (z * z) * (l * l)) by (nonlinear_arith)
            requires
                z * l == c,
        ;
        let q = l * l;
        let s = x * x + y * y + z * z;
        assert(q > 0 as real) by (nonlinear_arith)
            requires
                l > 0 as real,
                q == l * l,
        ;
        let (p, r, t) = (x * x, y * y, z * z);
        assert(s * q == q) by (nonlinear_arith)
            requires
                s == p + r + t,
                p * q + r * q + t * q == q,
        ;
        assert(s == 1 as real) by (nonlinear_arith)
            requires
                s * q == q,
                q > 0 as real,
        ;
    }
}

} // verus!
