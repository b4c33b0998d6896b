//! What the measurements of a body come to in exact arithmetic.
use vstd::prelude::*;

use crate::anthropometry::{Anthropometry, Measurements, MeasureOps};

verus! {

/// The operations are exact in the numbers that `value` stands for.
pub open spec fn measures_exactly<T, O: MeasureOps<T>>(ops: &O, value: spec_fn(T) -> real) -> bool {
    &&& crate::scalar::is_exact(ops, value)
    &&& crate::scalar::divides_exactly(ops, value)
    &&& crate::scalar::compares(ops, value)
    &&& forall|v: [T; 3], l: T| #[trigger]
        crate::scalar::length_of(ops, v, l) ==> value(l) >= 0 as real && value(l) * value(l)
            == value(v@[0]) * value(v@[0]) + value(v@[1]) * value(v@[1]) + value(v@[2]) * value(
            v@[2],
        )
    &&& forall|a: T, r: T| #[trigger]
        call_ensures(O::sixth, (ops, a), r) ==> 6 as real * value(r) == value(a)
    &&& forall|a: T, r: T| #[trigger]
        call_ensures(O::absolute, (ops, a), r) ==> value(r) >= 0 as real && (value(r) == value(a)
            || value(r) == -value(a))
}

proof fn lemma_extreme<T, O: MeasureOps<T>>(
    ops: &O,
    least: bool,
    values: Seq<T>,
    m: T,
    value: spec_fn(T) -> real,
)
    requires
        crate::scalar::compares(ops, value),
        values.len() > 0,
        crate::anthropometry::is_extreme(ops, least, values, m),
    ensures
        values.contains(m),
        forall|i: int|
            0 <= i < values.len() ==> if least {
                value(m) <= value(#[trigger] values[i])
            } else {
                value(m) >= value(values[i])
            },
    decreases values.len(),
{
    if values.len() > 1 {
        let less = values.drop_last();
        let before = choose|before: T|
            crate::anthropometry::is_extreme(ops, least, less, before)
                && #[trigger] crate::anthropometry::takes_over(
                ops,
                least,
                before,
                values.last(),
                m,
            );
        lemma_extreme(ops, least, less, before, value);
        let k = choose|k: int| 0 <= k < less.len() && less[k] == before;
        assert(values[k] == before);
        assert(values[values.len() - 1] == values.last());
        assert forall|i: int| 0 <= i < values.len() implies if least {
            value(m) <= value(#[trigger] values[i])
        } else {
            value(m) >= value(values[i])
        } by {
            if i < less.len() {
                assert(less[i] == values[i]);
            }
        }
    } else {
        assert(values[0] == m);
    }
}

/// In exact arithmetic the height of a body is the greatest difference of the
/// third coordinates of two of its vertices: no two differ by more, and some two
/// differ by as much.
pub proof fn law_height_is_extent<T, O: MeasureOps<T>>(
    ops: &O,
    vertices: Seq<[T; 3]>,
    h: T,
    value: spec_fn(T) -> real,
)
    requires
        measures_exactly(ops, value),
        vertices.len() > 0,
        crate::anthropometry::is_height(ops, vertices, h),
    ensures
        forall|i: int, j: int|
            0 <= i < vertices.len() && 0 <= j < vertices.len() ==> value(
                (#[trigger] vertices[i])@[2],
            ) - value((#[trigger] vertices[j])@[2]) <= value(h),
        exists|i: int, j: int|
            0 <= i < vertices.len() && 0 <= j < vertices.len() && value(
                (#[trigger] vertices[i])@[2],
            ) - value((#[trigger] vertices[j])@[2]) == value(h),
{
    let zs = crate::anthropometry::heights(vertices);
    let (top, bottom) = choose|top: T, bottom: T| #[trigger]
        crate::anthropometry::is_extreme(ops, false, zs, top)
            && #[trigger] crate::anthropometry::is_extreme(ops, true, zs, bottom)
            && crate::scalar::difference_of(ops, top, bottom, h);
    lemma_extreme(ops, false, zs, top, value);
    lemma_extreme(ops, true, zs, bottom, value);
    assert forall|i: int| 0 <= i < vertices.len() implies value(bottom) <= value(
        (#[trigger] vertices[i])@[2],
    ) <= value(top) by {
        assert(zs[i] == vertices[i]@[2]);
    }
    let i = choose|i: int| 0 <= i < zs.len() && zs[i] == top;
    let j = choose|j: int| 0 <= j < zs.len() && zs[j] == bottom;
    assert(vertices[i]@[2] == top && vertices[j]@[2] == bottom);
}

/// The square of the distance of two vertices.
pub open spec fn apart<T>(value: spec_fn(T) -> real, a: [T; 3], b: [T; 3]) -> real {
    (value(a@[0]) - value(b@[0])) * (value(a@[0]) - value(b@[0])) + (value(a@[1]) - value(b@[1])) * (
    value(a@[1]) - value(b@[1])) + (value(a@[2]) - value(b@[2])) * (value(a@[2]) - value(b@[2]))
}

/// In exact arithmetic the circumference is the sum of the lengths of the edges
/// of the closed loop: an edge leads from each vertex of the loop to the next, and
/// from the last to the first.
pub proof fn law_circumference_is_length<T, O: MeasureOps<T>>(
    ops: &O,
    zero: T,
    waist: Seq<u32>,
    vertices: Seq<[T; 3]>,
    c: T,
    value: spec_fn(T) -> real,
) -> (edges: Seq<real>)
    requires
        measures_exactly(ops, value),
        value(zero) == 0 as real,
        crate::anthropometry::is_circumference(ops, zero, waist, vertices, c),
    ensures
        edges.len() == waist.len(),
        value(c) == crate::utils::sums::sum(|i: int| edges[i], edges.len()),
        forall|i: int|
            0 <= i < edges.len() ==> #[trigger] edges[i] >= 0 as real && edges[i] * edges[i]
                == apart(
                value,
                vertices[waist[i] as int],
                vertices[waist[if i + 1 < waist.len() {
                    i + 1
                } else {
                    0
                }] as int],
            ),
{
    let lengths = choose|lengths: Seq<T>| #[trigger]
        crate::utils::shares::is_total(ops, zero, lengths, c) && lengths.len() == waist.len()
            && forall|i: int|
            0 <= i < waist.len() ==> crate::utils::distance::is_distance(
                ops,
                vertices[crate::anthropometry::predecessor(waist, i) as int]@,
                vertices[waist[i] as int]@,
                #[trigger] lengths[i],
            );
    crate::utils::sums::lemma_total(ops, zero, lengths, c, value);
    let n = waist.len() as int;
    let next = |i: int| if i + 1 < n { i + 1 } else { 0 };
    let edges = Seq::new(waist.len(), |i: int| value(lengths[next(i)]));
    assert forall|i: int| 0 <= i < edges.len() implies #[trigger] edges[i] >= 0 as real && edges[i]
        * edges[i] == apart(
        value,
        vertices[waist[i] as int],
        vertices[waist[next(i)] as int],
    ) by {
        let j = next(i);
        let a = vertices[crate::anthropometry::predecessor(waist, j) as int];
        let b = vertices[waist[j] as int];
        assert(crate::utils::distance::is_distance(ops, a@, b@, lengths[j]));
        assert(crate::anthropometry::predecessor(waist, j) == waist[i]);
        let way = choose|way: [T; 3]| #[trigger]
            crate::utils::distance::is_way(ops, a@, b@, way) && crate::scalar::length_of(
                ops,
                way,
                lengths[j],
            );
        assert(value(way@[0]) == value(a@[0]) - value(b@[0]));
        assert(value(way@[1]) == value(a@[1]) - value(b@[1]));
        assert(value(way@[2]) == value(a@[2]) - value(b@[2]));
    }
    let f = |i: int| value(lengths[i]);
    let g = |i: int| edges[i];
    if n > 0 {
        lemma_turned_sum(f, g, waist.len());
    }
    edges
}

/// A sum in which the first term stands last.
proof fn lemma_turned_sum(f: spec_fn(int) -> real, g: spec_fn(int) -> real, n: nat)
    requires
        n > 0,
        forall|i: int| 0 <= i < n - 1 ==> #[trigger] g(i) == f(i + 1),
        g(n - 1) == f(0),
    ensures
        crate::utils::sums::sum(f, n) == crate::utils::sums::sum(g, n),
{
    lemma_shifted(f, g, (n - 1) as nat);
}

proof fn lemma_shifted(f: spec_fn(int) -> real, g: spec_fn(int) -> real, n: nat)
    requires
        forall|i: int| 0 <= i < n ==> #[trigger] g(i) == f(i + 1),
    ensures
        crate::utils::sums::sum(f, n + 1) == f(0) + crate::utils::sums::sum(g, n),
    decreases n,
{
    if n > 0 {
        lemma_shifted(f, g, (n - 1) as nat);
        assert(g(n - 1) == f(n as int));
    } else {
        assert(crate::utils::sums::sum(f, 1) == crate::utils::sums::sum(f, 0) + f(0));
    }
}

/// The determinant of three points.
pub open spec fn triple<T>(value: spec_fn(T) -> real, a: [T; 3], b: [T; 3], c: [T; 3]) -> real {
    (value(a@[1]) * value(b@[2]) - value(a@[2]) * value(b@[1])) * value(c@[0]) + (value(a@[2])
        * value(b@[0]) - value(a@[0]) * value(b@[2])) * value(c@[1]) + (value(a@[0]) * value(b@[1])
        - value(a@[1]) * value(b@[0])) * value(c@[2])
}

/// In exact arithmetic six times the volume is the size of the sum of the
/// determinants of the corners of the triangles.
pub proof fn law_volume_is_enclosed<T, O: MeasureOps<T>>(
    ops: &O,
    zero: T,
    triangles: Seq<[u32; 3]>,
    vertices: Seq<[T; 3]>,
    v: T,
    value: spec_fn(T) -> real,
)
    requires
        measures_exactly(ops, value),
        value(zero) == 0 as real,
        crate::anthropometry::is_volume(ops, zero, triangles, vertices, v),
    ensures
        value(v) >= 0 as real,
        ({
            let all = crate::utils::sums::sum(
                |i: int|
                    triple(
                        value,
                        vertices[triangles[i]@[0] as int],
                        vertices[triangles[i]@[1] as int],
                        vertices[triangles[i]@[2] as int],
                    ),
                triangles.len(),
            );
            6 as real * value(v) == all || 6 as real * value(v) == -all
        }),
{
    let (parts, whole) = choose|parts: Seq<T>, sum: T| #[trigger]
        crate::utils::shares::is_total(ops, zero, parts, sum) && parts.len() == triangles.len()
            && call_ensures(O::absolute, (ops, sum), v) && forall|i: int|
            0 <= i < triangles.len() ==> crate::anthropometry::is_signed_volume(
                ops,
                vertices[triangles[i]@[0] as int],
                vertices[triangles[i]@[1] as int],
                vertices[triangles[i]@[2] as int],
                #[trigger] parts[i],
            );
    crate::utils::sums::lemma_total(ops, zero, parts, whole, value);
    let f = |i: int| value(parts[i]);
    let g = |i: int|
        triple(
            value,
            vertices[triangles[i]@[0] as int],
            vertices[triangles[i]@[1] as int],
            vertices[triangles[i]@[2] as int],
        );
    assert forall|i: int| 0 <= i < triangles.len() implies #[trigger] g(i) == 6 as real * f(i) by {
        let a = vertices[triangles[i]@[0] as int];
        let b = vertices[triangles[i]@[1] as int];
        let c = vertices[triangles[i]@[2] as int];
        let x = parts[i];
        assert(crate::anthropometry::is_signed_volume(ops, a, b, c, x));
        let (n, t) = choose|n: Seq<T>, t: T|
            {
                &&& crate::rotation::is_minor(ops, a@[1], b@[2], a@[2], b@[1], n[0])
                &&& crate::rotation::is_minor(ops, a@[2], b@[0], a@[0], b@[2], n[1])
                &&& crate::rotation::is_minor(ops, a@[0], b@[1], a@[1], b@[0], n[2])
                &&& #[trigger] crate::rotation::is_inner(ops, n, c@, t)
                &&& call_ensures(O::sixth, (ops, t), x)
            };
        crate::models::axis_laws::lemma_minor(ops, a@[1], b@[2], a@[2], b@[1], n[0], value);
        crate::models::axis_laws::lemma_minor(ops, a@[2], b@[0], a@[0], b@[2], n[1], value);
        crate::models::axis_laws::lemma_minor(ops, a@[0], b@[1], a@[1], b@[0], n[2], value);
        crate::models::axis_laws::lemma_inner(ops, n, c@, t, value);
    }
    crate::utils::sums::lemma_sum_times(6 as real, f, g, triangles.len());
}

/// In exact arithmetic the mass over the volume is the density.
pub proof fn law_mass_of_volume<T, O: MeasureOps<T>>(
    ops: &O,
    zero: T,
    density: T,
    triangles: Seq<[u32; 3]>,
    vertices: Seq<[T; 3]>,
    v: T,
    m: T,
    value: spec_fn(T) -> real,
)
    requires
        measures_exactly(ops, value),
        value(zero) == 0 as real,
        crate::anthropometry::is_volume(ops, zero, triangles, vertices, v),
        crate::anthropometry::is_mass(ops, zero, density, triangles, vertices, m),
    ensures
        value(m) == value(density) * value(v),
{
    let w = choose|w: T| #[trigger]
        crate::anthropometry::is_volume(ops, zero, triangles, vertices, w)
            && crate::scalar::product_of(ops, w, density, m);
    law_volume_is_enclosed(ops, zero, triangles, vertices, v, value);
    law_volume_is_enclosed(ops, zero, triangles, vertices, w, value);
    assert(value(v) == value(w));
    assert(value(v) * value(density) == value(density) * value(v)) by (nonlinear_arith);
}

/// In exact arithmetic the body mass index times the height, twice, is the mass of
/// a body that has a height.
pub proof fn law_index_of_mass<T, O: MeasureOps<T>>(
    ops: &O,
    zero: T,
    density: T,
    triangles: Seq<[u32; 3]>,
    vertices: Seq<[T; 3]>,
    h: T,
    m: T,
    x: T,
    value: spec_fn(T) -> real,
)
    requires
        measures_exactly(ops, value),
        value(zero) == 0 as real,
        vertices.len() > 0,
        crate::anthropometry::is_height(ops, vertices, h),
        crate::anthropometry::is_mass(ops, zero, density, triangles, vertices, m),
        crate::anthropometry::is_bmi(ops, zero, density, triangles, vertices, x),
        value(h) != 0 as real,
    ensures
        value(x) * (value(h) * value(h)) == value(m),
{
    let (g, n, square) = choose|g: T, n: T, square: T| #[trigger]
        crate::anthropometry::is_height(ops, vertices, g) && #[trigger] crate::anthropometry::is_mass(
            ops,
            zero,
            density,
            triangles,
            vertices,
            n,
        ) && #[trigger] crate::scalar::product_of(ops, g, g, square) && crate::scalar::quotient_of(
            ops,
            n,
            square,
            x,
        );
    let v = choose|v: T| #[trigger]
        crate::anthropometry::is_volume(ops, zero, triangles, vertices, v)
            && crate::scalar::product_of(ops, v, density, m);
    law_mass_of_volume(ops, zero, density, triangles, vertices, v, m, value);
    law_mass_of_volume(ops, zero, density, triangles, vertices, v, n, value);
    law_height_is_extent(ops, vertices, h, value);
    law_height_is_extent(ops, vertices, g, value);
    assert(value(g) == value(h));
    let (s, y) = (value(square), value(n));
    let k = value(h);
    assert(k * k != 0 as real) by (nonlinear_arith)
        requires
            k != 0 as real,
    ;
    assert((y / s) * s == y) by (nonlinear_arith)
        requires
            s != 0 as real,
    ;
}

/// All measurements of a body are those of its parts: the extent along the third
/// axis, the length of the loop of the waist, the volume within the triangles, the
/// density times that volume, and that mass over the square of that extent.
pub proof fn law_measurements<T: Copy, O: MeasureOps<T>>(
    ops: &O,
    a: Anthropometry,
    vertices: Vec<[T; 3]>,
    zero: T,
    density: T,
    r: Measurements<T>,
    value: spec_fn(T) -> real,
) -> (edges: Seq<real>)
    requires
        measures_exactly(ops, value),
        value(zero) == 0 as real,
        vertices@.len() > 0,
        call_ensures(
            Anthropometry::measurements::<T, O>,
            (&a, &vertices, zero, density, ops),
            r,
        ),
    ensures
        forall|i: int, j: int|
            0 <= i < vertices@.len() && 0 <= j < vertices@.len() ==> value(
                (#[trigger] vertices@[i])@[2],
            ) - value((#[trigger] vertices@[j])@[2]) <= value(r.height),
        exists|i: int, j: int|
            0 <= i < vertices@.len() && 0 <= j < vertices@.len() && value(
                (#[trigger] vertices@[i])@[2],
            ) - value((#[trigger] vertices@[j])@[2]) == value(r.height),
        edges.len() == a.waist_vertex_indices@.len(),
        value(r.waist_circumference) == crate::utils::sums::sum(|i: int| edges[i], edges.len()),
        forall|i: int|
            0 <= i < edges.len() ==> #[trigger] edges[i] >= 0 as real && edges[i] * edges[i]
                == apart(
                value,
                vertices@[a.waist_vertex_indices@[i] as int],
                vertices@[a.waist_vertex_indices@[if i + 1 < a.waist_vertex_indices@.len() {
                    i + 1
                } else {
                    0
                }] as int],
            ),
        value(r.volume) >= 0 as real,
        ({
            let all = crate::utils::sums::sum(
                |i: int|
                    triple(
                        value,
                        vertices@[a.triangular_faces@[i]@[0] as int],
                        vertices@[a.triangular_faces@[i]@[1] as int],
                        vertices@[a.triangular_faces@[i]@[2] as int],
                    ),
                a.triangular_faces@.len(),
            );
            6 as real * value(r.volume) == all || 6 as real * value(r.volume) == -all
        }),
        value(r.mass) == value(density) * value(r.volume),
        value(r.height) != 0 as real ==> value(r.bmi) * (value(r.height) * value(r.height))
            == value(r.mass),
{
    let (waist, triangles) = (a.waist_vertex_indices@, a.triangular_faces@);
    law_height_is_extent(ops, vertices@, r.height, value);
    law_volume_is_enclosed(ops, zero, triangles, vertices@, r.volume, value);
    law_mass_of_volume(ops, zero, density, triangles, vertices@, r.volume, r.mass, value);
    if value(r.height) != 0 as real {
        law_index_of_mass(
            ops,
            zero,
            density,
            triangles,
            vertices@,
            r.height,
            r.mass,
            r.bmi,
            value,
        );
    }
    law_circumference_is_length(ops, zero, waist, vertices@, r.waist_circumference, value)
}

/// In exact arithmetic the height of a body depends on nothing but the third
/// coordinates of its vertices.
pub proof fn law_height_is_along_the_third_axis<T: Copy, O: MeasureOps<T>>(
    ops: &O,
    a: Anthropometry,
    b: Anthropometry,
    vertices: Vec<[T; 3]>,
    others: Vec<[T; 3]>,
    h: T,
    g: T,
    value: spec_fn(T) -> real,
)
    requires
        measures_exactly(ops, value),
        vertices@.len() > 0,
        others@.len() == vertices@.len(),
        forall|i: int|
            0 <= i < vertices@.len() ==> value((#[trigger] vertices@[i])@[2]) == value(
                others@[i]@[2],
            ),
        call_ensures(Anthropometry::height::<T, O>, (&a, &vertices, ops), h),
        call_ensures(Anthropometry::height::<T, O>, (&b, &others, ops), g),
    ensures
        value(h) == value(g),
{
    law_height_is_extent(ops, vertices@, h, value);
    law_height_is_extent(ops, others@, g, value);
    let (i, j) = choose|i: int, j: int|
        0 <= i < vertices@.len() && 0 <= j < vertices@.len() && value(
            (#[trigger] vertices@[i])@[2],
        ) - value((#[trigger] vertices@[j])@[2]) == value(h);
    let (k, l) = choose|i: int, j: int|
        0 <= i < others@.len() && 0 <= j < others@.len() && value((#[trigger] others@[i])@[2])
            - value((#[trigger] others@[j])@[2]) == value(g);
    assert(value(others@[i]@[2]) - value(others@[j]@[2]) <= value(g));
    assert(value(vertices@[k]@[2]) - value(vertices@[l]@[2]) <= value(h));
}

} // verus!
