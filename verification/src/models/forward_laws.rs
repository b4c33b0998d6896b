//! What a forward pass comes to in exact arithmetic.
use vstd::prelude::*;

use crate::kinematics::bone_poses::EndpointOps;
use crate::models::body::Model;
use crate::models::forward::{ForwardError, ForwardOutput, Numbers, ShapeError};
use crate::models::full_model::SkinningMethod;
use crate::models::pose::PoseParameterization;
use crate::phenotype::PhenotypeValues;
use crate::scalar::{Arithmetic, Bounds, Division};
use crate::skinning::MotionOps;

verus! {

/// `f(0) * f(1) * ... * f(n - 1)`.
pub open spec fn product(f: spec_fn(int) -> real, n: nat) -> real
    decreases n,
{
    if n == 0 {
        1 as real
    } else {
        product(f, (n - 1) as nat) * f(n - 1)
    }
}

proof fn lemma_product<T, O: Arithmetic<T>>(
    ops: &O,
    terms: Seq<T>,
    r: T,
    value: spec_fn(T) -> real,
    f: spec_fn(int) -> real,
)
    requires
        crate::scalar::is_exact(ops, value),
        crate::phenotype::is_product(ops, terms, r),
        forall|v: int| 0 <= v < terms.len() ==> #[trigger] f(v) == value(terms[v]),
    ensures
        value(r) == product(f, terms.len()),
    decreases terms.len(),
{
    let n = terms.len();
    assert(f(n - 1) == value(terms[n - 1]));
    if n <= 1 {
        let x = f(0);
        assert(product(f, 0) == 1 as real);
        assert(product(f, 1) == product(f, 0) * f(0));
        assert((1 as real) * x == x) by (nonlinear_arith);
    } else {
        let p = choose|p: T|
            crate::phenotype::is_product(ops, terms.drop_last(), p)
                && #[trigger] crate::scalar::product_of(ops, p, terms.last(), r);
        assert forall|v: int| 0 <= v < n - 1 implies #[trigger] f(v) == value(
            terms.drop_last()[v],
        ) by {
            assert(f(v) == value(terms[v]));
        }
        lemma_product(ops, terms.drop_last(), p, value, f);
    }
}

/// `x` is the value that is given for the label in element `b`: of the first change of
/// that name, and nothing without one.
pub open spec fn drives<T>(
    value: spec_fn(T) -> real,
    changes: Seq<(String, Vec<T>)>,
    label: Seq<char>,
    b: int,
    x: real,
) -> bool {
    ||| exists|c: int|
        {
            &&& 0 <= c < changes.len()
            &&& (#[trigger] changes[c]).0@ == label
            &&& forall|k: int| 0 <= k < c ==> (#[trigger] changes[k]).0@ != label
            &&& x == value(crate::phenotype::row_laws::given(changes[c].1@, b))
        }
    ||| x == 0 as real && forall|k: int|
        0 <= k < changes.len() ==> (#[trigger] changes[k]).0@ != label
}

pub open spec fn above_zero(x: real) -> real {
    if x > 0 as real {
        x
    } else {
        0 as real
    }
}

/// The coefficient of a gated shape is the product of the columns of its gates. The two
/// coefficients of a local change are how far its value is above zero, and how far
/// below.
pub open spec fn are_drawn<T>(
    value: spec_fn(T) -> real,
    masks: Seq<Vec<bool>>,
    labels: Seq<String>,
    changes: Seq<(String, Vec<T>)>,
    b: int,
    row: Seq<T>,
    coefficients: Seq<T>,
) -> bool {
    &&& coefficients.len() == masks.len() + 2 * labels.len()
    &&& forall|s: int|
        0 <= s < masks.len() ==> value(#[trigger] coefficients[s]) == product(
            |v: int|
                if masks[s]@[v] {
                    value(row[v])
                } else {
                    1 as real
                },
            row.len(),
        )
    &&& forall|j: int|
        0 <= j < labels.len() ==> is_split(
            value,
            changes,
            (#[trigger] labels[j])@,
            b,
            coefficients[masks.len() + 2 * j],
            coefficients[masks.len() + 2 * j + 1],
        )
}

/// The first coefficient is how far the value of the label is above zero, and the
/// second how far below.
pub open spec fn is_split<T>(
    value: spec_fn(T) -> real,
    changes: Seq<(String, Vec<T>)>,
    label: Seq<char>,
    b: int,
    up: T,
    down: T,
) -> bool {
    exists|x: real| #[trigger]
        drives(value, changes, label, b, x) && value(up) == above_zero(x) && value(down)
            == above_zero(-x)
}

proof fn lemma_split<T, O: Arithmetic<T> + Bounds<T>>(
    ops: &O,
    zero: T,
    changes: Seq<(String, Vec<T>)>,
    label: Seq<char>,
    b: int,
    up: T,
    down: T,
    value: spec_fn(T) -> real,
)
    requires
        crate::scalar::is_exact(ops, value),
        crate::scalar::compares(ops, value),
        value(zero) == 0 as real,
        crate::models::local_changes::is_activation(ops, zero, changes, label, b, up, down),
    ensures
        is_split(value, changes, label, b, up, down),
{
    let names = crate::models::local_changes::change_names(changes);
    crate::names::lemma_first_at(names, label);
    match crate::names::first_at(names, label) {
        Some(c) => {
            assert(names[c] == changes[c].0@);
            assert forall|k: int| 0 <= k < c implies (#[trigger] changes[k]).0@ != label by {
                assert(names[k] != label);
            }
            let v = crate::phenotype::row_laws::given(changes[c].1@, b);
            crate::models::local_changes::law_one_direction(ops, zero, v, up, down, value);
            assert(drives(value, changes, label, b, value(v)));
        },
        None => {
            assert forall|k: int| 0 <= k < changes.len() implies (#[trigger] changes[k]).0@
                != label by {
                assert(names[k] != label);
            }
            assert(drives(value, changes, label, b, 0 as real));
        },
    }
}

#[verifier::rlimit(40)]
proof fn lemma_drawn<T: Copy, O: Division<T> + Bounds<T>>(
    ops: &O,
    third: T,
    zero: T,
    one: T,
    model: Model<T>,
    values: PhenotypeValues<Vec<T>>,
    changes: Seq<(String, Vec<T>)>,
    whole: Vec<Vec<T>>,
    b: int,
    value: spec_fn(T) -> real,
) -> (row: Seq<T>)
    requires
        crate::utils::interpolation_laws::interpolates_exactly(ops, zero, one, value),
        crate::phenotype::row_laws::are_labelled(value, model.anchors),
        crate::models::forward::shape_outcome(
            ops,
            third,
            zero,
            one,
            model,
            values,
            changes,
            Ok(whole),
        ),
        0 <= b < whole@.len(),
    ensures
        row.len() == 26,
        crate::phenotype::row_laws::says_all(
            model.figure.extrapolate_phenotypes,
            value,
            row,
            model.anchors,
            values,
            b,
        ),
        are_drawn(
            value,
            model.stacked_phenotype_blend_shapes_mask@,
            model.local_change_labels@,
            changes,
            b,
            row,
            whole@[b]@,
        ),
{
    let masks = model.stacked_phenotype_blend_shapes_mask@;
    let labels = model.local_change_labels@;
    let extrapolate = model.figure.extrapolate_phenotypes;
    let gated = choose|gated: Seq<Vec<T>>| #[trigger]
        crate::phenotype::rows::are_gated(
            ops,
            extrapolate,
            third,
            zero,
            one,
            values,
            model.anchors,
            masks,
            gated,
        ) && crate::models::forward::are_joined(ops, zero, labels, changes, gated, whole@);
    let rows = choose|rows: Seq<Vec<T>>|
        {
            &&& #[trigger] crate::phenotype::rows::are_phenotype_rows(
                ops,
                extrapolate,
                third,
                zero,
                one,
                values,
                model.anchors,
                rows,
            )
            &&& forall|c: int|
                0 <= c < masks.len() ==> (#[trigger] masks[c])@.len()
                    == crate::phenotype::rows::column_count(model.anchors)
            &&& crate::phenotype::rows::are_coefficients(ops, one, rows, masks, gated)
        };
    crate::phenotype::row_laws::lemma_columns_say(
        ops,
        extrapolate,
        third,
        zero,
        one,
        values,
        model.anchors,
        rows,
        b,
        value,
    );
    let row = rows[b]@;
    let all = whole@[b]@;
    let n = masks.len() as int;
    assert(gated[b]@.len() == n);
    assert(all.take(n) == gated[b]@);
    assert forall|s: int| 0 <= s < n implies value(#[trigger] all[s]) == product(
        |v: int|
            if masks[s]@[v] {
                value(row[v])
            } else {
                1 as real
            },
        row.len(),
    ) by {
        let f = |v: int|
            if masks[s]@[v] {
                value(row[v])
            } else {
                1 as real
            };
        assert(all[s] == all.take(n)[s]);
        let terms = crate::phenotype::factors(row, masks[s]@, one);
        assert(crate::phenotype::is_product(ops, terms, gated[b]@[s]));
        lemma_product(ops, terms, gated[b]@[s], value, f);
    }
    let rest = all.skip(n);
    assert forall|j: int| 0 <= j < labels.len() implies is_split(
        value,
        changes,
        (#[trigger] labels[j])@,
        b,
        all[n + 2 * j],
        all[n + 2 * j + 1],
    ) by {
        assert(rest[2 * j] == all[n + 2 * j] && rest[2 * j + 1] == all[n + 2 * j + 1]);
        lemma_split(
            ops,
            zero,
            changes,
            labels[j]@,
            b,
            rest[2 * j],
            rest[2 * j + 1],
            value,
        );
    }
    row
}

/// In exact arithmetic the coefficients of a body are drawn from what its phenotype
/// and its local changes say.
pub proof fn law_coefficients_are_drawn<T: Copy, O: Division<T> + Bounds<T>>(
    numbers: Numbers<O, T>,
    model: Model<T>,
    values: PhenotypeValues<Vec<T>>,
    changes: Vec<(String, Vec<T>)>,
    whole: Vec<Vec<T>>,
    b: int,
    value: spec_fn(T) -> real,
) -> (row: Seq<T>)
    requires
        crate::utils::interpolation_laws::interpolates_exactly(
            numbers.ops,
            numbers.zero,
            numbers.one,
            value,
        ),
        crate::phenotype::row_laws::are_labelled(value, model.anchors),
        call_ensures(
            Model::<T>::phenotype_coefficients_with_local_changes::<O>,
            (&model, &values, &changes, &numbers),
            Ok::<Vec<Vec<T>>, ShapeError>(whole),
        ),
        0 <= b < whole@.len(),
    ensures
        row.len() == 26,
        crate::phenotype::row_laws::says_all(
            model.figure.extrapolate_phenotypes,
            value,
            row,
            model.anchors,
            values,
            b,
        ),
        are_drawn(
            value,
            model.stacked_phenotype_blend_shapes_mask@,
            model.local_change_labels@,
            changes@,
            b,
            row,
            whole@[b]@,
        ),
{
    lemma_drawn(
        numbers.ops,
        numbers.third,
        numbers.zero,
        numbers.one,
        model,
        values,
        changes@,
        whole,
        b,
        value,
    )
}

/// Points are the template with the shapes added, each by its coefficient.
pub open spec fn are_sums<T>(
    value: spec_fn(T) -> real,
    template: Seq<[T; 3]>,
    shapes: Seq<Vec<[T; 3]>>,
    coefficients: Seq<T>,
    points: Seq<[T; 3]>,
) -> bool {
    &&& points.len() == template.len()
    &&& forall|i: int, c: int|
        0 <= i < points.len() && 0 <= c < 3 ==> value(#[trigger] points[i]@[c]) == value(
            template[i]@[c],
        ) + crate::utils::sums::sum(
            |s: int| value(coefficients[s]) * value(shapes[s]@[i]@[c]),
            shapes.len(),
        )
}

proof fn lemma_sums<T, O: Arithmetic<T>>(
    ops: &O,
    zero: T,
    template: Seq<[T; 3]>,
    shapes: Seq<Vec<[T; 3]>>,
    coefficients: Seq<Vec<T>>,
    points: Seq<Vec<[T; 3]>>,
    b: int,
    value: spec_fn(T) -> real,
)
    requires
        crate::scalar::is_exact(ops, value),
        value(zero) == 0 as real,
        crate::models::forward::are_shaped(ops, zero, template, shapes, coefficients, points),
        0 <= b < points.len(),
    ensures
        are_sums(value, template, shapes, coefficients[b]@, points[b]@),
{
    let row = coefficients[b]@;
    assert forall|i: int, c: int| 0 <= i < points[b]@.len() && 0 <= c < 3 implies value(
        #[trigger] points[b]@[i]@[c],
    ) == value(template[i]@[c]) + crate::utils::sums::sum(
        |s: int| value(row[s]) * value(shapes[s]@[i]@[c]),
        shapes.len(),
    ) by {
        let q = points[b]@[i]@[c];
        assert(crate::skinning::is_shaped(ops, zero, template, shapes, row, i, c, q));
        let terms = crate::skinning::shape_terms(row, shapes, i, c);
        let mixed = choose|mixed: T| #[trigger]
            crate::scalar::sum_of(ops, template[i]@[c], mixed, q) && crate::utils::blend::is_blend(
                ops,
                zero,
                terms,
                mixed,
            );
        crate::utils::sums::lemma_blend(ops, zero, terms, mixed, value);
        crate::utils::sums::lemma_same_sum(
            |s: int| value(terms[s].0) * value(terms[s].1),
            |s: int| value(row[s]) * value(shapes[s]@[i]@[c]),
            shapes.len(),
        );
    }
}

/// A coordinate of a point under a transform.
pub open spec fn carried<T>(
    value: spec_fn(T) -> real,
    m: [[T; 4]; 4],
    p: [T; 3],
    c: int,
) -> real {
    value(m@[c]@[0]) * value(p@[0]) + value(m@[c]@[1]) * value(p@[1]) + value(m@[c]@[2]) * value(
        p@[2],
    ) + value(m@[c]@[3])
}

/// The skinned point is the sum of where the transforms of its bones carry it, each by
/// its weight.
pub open spec fn is_sum_of_carried<T>(
    value: spec_fn(T) -> real,
    weights: Seq<T>,
    bones: Seq<u32>,
    transforms: Seq<[[T; 4]; 4]>,
    p: [T; 3],
    q: [T; 3],
) -> bool {
    forall|c: int|
        0 <= c < 3 ==> value(#[trigger] q@[c]) == crate::utils::sums::sum(
            |k: int| value(weights[k]) * carried(value, transforms[bones[k] as int], p, c),
            weights.len(),
        )
}

proof fn lemma_four_sums(
    a: spec_fn(int) -> real,
    b: spec_fn(int) -> real,
    c: spec_fn(int) -> real,
    d: spec_fn(int) -> real,
    w: spec_fn(int) -> real,
    x: real,
    y: real,
    z: real,
    g: spec_fn(int) -> real,
    n: nat,
)
    requires
        forall|k: int|
            0 <= k < n ==> #[trigger] g(k) == w(k) * (a(k) * x + b(k) * y + c(k) * z + d(k)),
    ensures
        crate::utils::sums::sum(|k: int| w(k) * a(k), n) * x + crate::utils::sums::sum(
            |k: int| w(k) * b(k),
            n,
        ) * y + crate::utils::sums::sum(|k: int| w(k) * c(k), n) * z + crate::utils::sums::sum(
            |k: int| w(k) * d(k),
            n,
        ) == crate::utils::sums::sum(g, n),
    decreases n,
{
    let (fa, fb, fc, fd) = (
        |k: int| w(k) * a(k),
        |k: int| w(k) * b(k),
        |k: int| w(k) * c(k),
        |k: int| w(k) * d(k),
    );
    if n > 0 {
        let m = (n - 1) as nat;
        lemma_four_sums(a, b, c, d, w, x, y, z, g, m);
        let k = n - 1;
        let (p, q, r, s, t) = (a(k), b(k), c(k), d(k), w(k));
        assert(g(k) == t * (p * x + q * y + r * z + s));
        lemma_one_term(t, p, q, r, s, x, y, z);
        let (sa, sb, sc) = (
            crate::utils::sums::sum(fa, m),
            crate::utils::sums::sum(fb, m),
            crate::utils::sums::sum(fc, m),
        );
        lemma_added(sa, t * p, x);
        lemma_added(sb, t * q, y);
        lemma_added(sc, t * r, z);
    } else {
        assert((0 as real) * x == 0 as real && (0 as real) * y == 0 as real && (0 as real) * z
            == 0 as real) by (nonlinear_arith);
    }
}

proof fn lemma_added(a: real, b: real, x: real)
    ensures
        (a + b) * x == a * x + b * x,
{
    assert((a + b) * x == a * x + b * x) by (nonlinear_arith);
}

proof fn lemma_one_term(
    t: real,
    p: real,
    q: real,
    r: real,
    s: real,
    x: real,
    y: real,
    z: real,
)
    ensures
        t * (p * x + q * y + r * z + s) == (t * p) * x + (t * q) * y + (t * r) * z + t * s,
{
    let (l, m, n) = (p * x, q * y, r * z);
    assert(t * (l + m + n + s) == t * l + t * m + t * n + t * s) by (nonlinear_arith);
    assert(t * (p * x) == (t * p) * x) by (nonlinear_arith);
    assert(t * (q * y) == (t * q) * y) by (nonlinear_arith);
    assert(t * (r * z) == (t * r) * z) by (nonlinear_arith);
}

proof fn lemma_carried<T, O: Arithmetic<T>>(
    ops: &O,
    zero: T,
    one: T,
    weights: Seq<T>,
    ms: Seq<[[T; 4]; 4]>,
    p: [T; 3],
    c: int,
    q: T,
    value: spec_fn(T) -> real,
)
    requires
        crate::scalar::is_exact(ops, value),
        value(zero) == 0 as real,
        value(one) == 1 as real,
        0 <= c < 3,
        crate::skinning::is_skinned_coordinate(ops, zero, one, weights, ms, p@, c, q),
    ensures
        value(q) == crate::utils::sums::sum(
            |k: int| value(weights[k]) * carried(value, ms[k], p, c),
            weights.len(),
        ),
{
    let n = weights.len();
    let row = choose|row: Seq<T>| #[trigger]
        crate::skinning::is_blended_row(ops, zero, weights, ms, c, row)
            && crate::utils::blend::is_blend(
            ops,
            zero,
            crate::skinning::row_terms(row, p@, one),
            q,
        );
    lemma_entry(ops, zero, weights, ms, c, 0, row, value);
    lemma_entry(ops, zero, weights, ms, c, 1, row, value);
    lemma_entry(ops, zero, weights, ms, c, 2, row, value);
    lemma_entry(ops, zero, weights, ms, c, 3, row, value);
    let terms = crate::skinning::row_terms(row, p@, one);
    crate::utils::sums::lemma_blend(ops, zero, terms, q, value);
    let f = |k: int| value(terms[k].0) * value(terms[k].1);
    reveal_with_fuel(crate::utils::sums::sum, 5);
    assert(crate::utils::sums::sum(f, 4) == f(0) + f(1) + f(2) + f(3));
    let last = value(row[3]);
    assert(last * (1 as real) == last) by (nonlinear_arith);
    let g = |k: int| value(weights[k]) * carried(value, ms[k], p, c);
    lemma_four_sums(
        |k: int| value(ms[k]@[c]@[0]),
        |k: int| value(ms[k]@[c]@[1]),
        |k: int| value(ms[k]@[c]@[2]),
        |k: int| value(ms[k]@[c]@[3]),
        |k: int| value(weights[k]),
        value(p@[0]),
        value(p@[1]),
        value(p@[2]),
        g,
        n,
    );
}

proof fn lemma_entry<T, O: Arithmetic<T>>(
    ops: &O,
    zero: T,
    weights: Seq<T>,
    ms: Seq<[[T; 4]; 4]>,
    r: int,
    c: int,
    row: Seq<T>,
    value: spec_fn(T) -> real,
)
    requires
        crate::scalar::is_exact(ops, value),
        value(zero) == 0 as real,
        0 <= c < 4,
        crate::skinning::is_blended_row(ops, zero, weights, ms, r, row),
    ensures
        value(row[c]) == crate::utils::sums::sum(
            |k: int| (|k: int| value(weights[k]))(k) * (|k: int| value(ms[k]@[r]@[c]))(k),
            weights.len(),
        ),
{
    let terms = crate::skinning::entry_terms(weights, ms, r, c);
    assert(crate::utils::blend::is_blend(ops, zero, terms, row[c]));
    crate::utils::sums::lemma_blend(ops, zero, terms, row[c], value);
    crate::utils::sums::lemma_same_sum(
        |k: int| value(terms[k].0) * value(terms[k].1),
        |k: int| (|k: int| value(weights[k]))(k) * (|k: int| value(ms[k]@[r]@[c]))(k),
        weights.len(),
    );
}

/// The vertices of a body are skinned: each is the sum of where the transforms of its
/// bones carry it, by its weights.
pub open spec fn are_skinned<T>(
    value: spec_fn(T) -> real,
    model: Model<T>,
    transforms: Seq<[[T; 4]; 4]>,
    rest: Seq<[T; 3]>,
    vertices: Seq<[T; 3]>,
) -> bool {
    &&& vertices.len() == rest.len()
    &&& forall|i: int|
        0 <= i < vertices.len() && (forall|k: int|
            0 <= k < model.figure.vertex_bones.indices@[i]@.len()
                ==> (#[trigger] model.figure.vertex_bones.indices@[i]@[k])
                < model.figure.bone_labels@.len()) ==> is_sum_of_carried(
            value,
            model.figure.vertex_bones.weights@[i]@,
            model.figure.vertex_bones.indices@[i]@,
            transforms,
            rest[i],
            #[trigger] vertices[i],
        )
}

/// In exact arithmetic a forward pass makes each body of its own phenotype, local changes
/// and pose. Its coefficients are drawn from them; its vertices at rest, and the
/// heads and the tails of its bones, are the template with the shapes added by the
/// coefficients; its skeleton lies between these heads and tails and is posed by
/// its parameters, in the parameterization that is asked for or else that of the
/// model; and where the model blends linearly, its vertices are carried by the
/// transforms of that skeleton.
#[verifier::rlimit(40)]
pub proof fn law_bodies_are_made<T: Copy, O: EndpointOps<T> + MotionOps<T>>(
    numbers: Numbers<O, T>,
    model: Model<T>,
    pose: Option<&Vec<Vec<[[T; 4]; 4]>>>,
    values: PhenotypeValues<Vec<T>>,
    changes: Vec<(String, Vec<T>)>,
    asked: Option<PoseParameterization>,
    out: ForwardOutput<T>,
    b: int,
    value: spec_fn(T) -> real,
) -> (r: (Seq<T>, Seq<[T; 3]>, Seq<[T; 3]>, Vec<[[T; 4]; 4]>, [[T; 4]; 4]))
    requires
        crate::utils::interpolation_laws::interpolates_exactly(
            numbers.ops,
            numbers.zero,
            numbers.one,
            value,
        ),
        crate::phenotype::row_laws::are_labelled(value, model.anchors),
        model.wf(),
        call_ensures(
            Model::<T>::forward_with_local_changes::<O>,
            (&model, pose, &values, &changes, asked, &numbers),
            Ok::<ForwardOutput<T>, ForwardError>(out),
        ),
        0 <= b < out.vertices@.len(),
    ensures
        r.0.len() == 26,
        crate::phenotype::row_laws::says_all(
            model.figure.extrapolate_phenotypes,
            value,
            r.0,
            model.anchors,
            values,
            b,
        ),
        are_drawn(
            value,
            model.stacked_phenotype_blend_shapes_mask@,
            model.local_change_labels@,
            changes@,
            b,
            r.0,
            out.blendshape_coeffs@[b]@,
        ),
        out.parameterization == match asked {
            Some(p) => p,
            None => model.figure.default_pose_parameterization,
        },
        are_sums(
            value,
            model.figure.template_vertices@,
            model.blendshapes@,
            out.blendshape_coeffs@[b]@,
            out.rest_vertices@[b]@,
        ),
        are_sums(
            value,
            model.template_bone_heads@,
            model.bone_heads_blendshapes@,
            out.blendshape_coeffs@[b]@,
            r.1,
        ),
        are_sums(
            value,
            model.template_bone_tails@,
            model.bone_tails_blendshapes@,
            out.blendshape_coeffs@[b]@,
            r.2,
        ),
        crate::models::forward::are_rest_poses(
            numbers.ops,
            numbers.zero,
            numbers.one,
            model.bone_rolls_rotmat@,
            r.1,
            r.2,
            out.skeletons@[b].rest@,
        ),
        pose is Some ==> r.3 == pose->0@[b],
        pose is None ==> forall|j: int|
            0 <= j < r.3@.len() ==> crate::rotation::rows4(#[trigger] r.3@[j])
                == crate::rotation::rows4(r.4),
        r.3@.len() == model.figure.bone_labels@.len(),
        crate::rotation::rows4(r.4) =~~= seq![
            seq![numbers.one, numbers.zero, numbers.zero, numbers.zero],
            seq![numbers.zero, numbers.one, numbers.zero, numbers.zero],
            seq![numbers.zero, numbers.zero, numbers.one, numbers.zero],
            seq![numbers.zero, numbers.zero, numbers.zero, numbers.one],
        ],
        crate::models::pose::is_posed(
            &(crate::models::matrices::Matrices {
                ops: numbers.ops,
                zero: numbers.zero,
                one: numbers.one,
            }),
            out.parameterization,
            model.figure.bone_parents@,
            out.skeletons@[b].rest@,
            r.3@,
            r.4,
            out.skeletons@[b],
        ),
        model.figure.skinning_method == SkinningMethod::Lbs ==> are_skinned(
            value,
            model,
            out.skeletons@[b].transforms@,
            out.rest_vertices@[b]@,
            out.vertices@[b]@,
        ),
{
    let (ops, zero, one) = (numbers.ops, numbers.zero, numbers.one);
    let rows: Option<Seq<Vec<[[T; 4]; 4]>>> = match pose {
        Some(p) => Some(p@),
        None => None,
    };
    assert(crate::models::forward::forward_outcome(
        ops,
        numbers.third,
        zero,
        one,
        model,
        rows,
        values,
        changes@,
        asked,
        Ok(out),
    ));
    let mode = crate::models::forward::chosen(
        asked,
        model.figure.default_pose_parameterization,
    );
    let coefficients = choose|coefficients: Vec<Vec<T>>| #[trigger]
        crate::models::forward::shape_outcome(
            ops,
            numbers.third,
            zero,
            one,
            model,
            values,
            changes@,
            Ok(coefficients),
        ) && crate::models::forward::posed_outcome(
            ops,
            zero,
            one,
            model,
            coefficients@,
            rows,
            mode,
            Ok(out),
        );
    assert(crate::models::forward::is_forward(
        ops,
        zero,
        one,
        model,
        coefficients@,
        rows,
        mode,
        out,
    ));
    let row = lemma_drawn(
        ops,
        numbers.third,
        zero,
        one,
        model,
        values,
        changes@,
        coefficients,
        b,
        value,
    );
    lemma_sums(
        ops,
        zero,
        model.figure.template_vertices@,
        model.blendshapes@,
        coefficients@,
        out.rest_vertices@,
        b,
        value,
    );
    let (heads, tails) = choose|heads: Seq<Vec<[T; 3]>>, tails: Seq<Vec<[T; 3]>>|
        {
            &&& #[trigger] crate::models::forward::are_shaped(
                ops,
                zero,
                model.template_bone_heads@,
                model.bone_heads_blendshapes@,
                coefficients@,
                heads,
            )
            &&& #[trigger] crate::models::forward::are_shaped(
                ops,
                zero,
                model.template_bone_tails@,
                model.bone_tails_blendshapes@,
                coefficients@,
                tails,
            )
            &&& forall|b: int|
                0 <= b < out.skeletons@.len() ==> crate::models::forward::is_posed_element(
                    ops,
                    zero,
                    one,
                    model,
                    mode,
                    heads[b]@,
                    tails[b]@,
                    rows,
                    b,
                    #[trigger] out.skeletons@[b],
                )
        };
    lemma_sums(
        ops,
        zero,
        model.template_bone_heads@,
        model.bone_heads_blendshapes@,
        coefficients@,
        heads,
        b,
        value,
    );
    lemma_sums(
        ops,
        zero,
        model.template_bone_tails@,
        model.bone_tails_blendshapes@,
        coefficients@,
        tails,
        b,
        value,
    );
    let s = out.skeletons@[b];
    let matrices = crate::models::matrices::Matrices { ops, zero, one };
    let bones = model.figure.bone_labels@.len() as int;
    assert(crate::models::forward::is_posed_element(
        ops,
        zero,
        one,
        model,
        mode,
        heads[b]@,
        tails[b]@,
        rows,
        b,
        s,
    ));
    let (rest, params, identity) = choose|
        rest: Vec<[[T; 4]; 4]>,
        params: Vec<[[T; 4]; 4]>,
        identity: [[T; 4]; 4],
    |
        {
            &&& #[trigger] crate::models::forward::are_rest_poses(
                ops,
                zero,
                one,
                model.bone_rolls_rotmat@,
                heads[b]@,
                tails[b]@,
                rest@,
            )
            &&& #[trigger] crate::models::forward::are_pose_parameters(
                zero,
                one,
                rows,
                bones,
                b,
                params@,
            )
            &&& crate::rotation::rows4(identity) =~~= crate::rotation::identity_rows(zero, one)
            &&& #[trigger] crate::models::pose::is_posed(
                &matrices,
                mode,
                model.figure.bone_parents@,
                rest@,
                params@,
                identity,
                s,
            )
        };
    assert(s.rest@ == rest@);
    let given = match pose {
        Some(p) => p@[b],
        None => params,
    };
    assert(given@ == params@);
    if pose is None {
        let e = crate::rotation::identity_rows(zero, one);
        assert forall|j: int| 0 <= j < params@.len() implies crate::rotation::rows4(
            #[trigger] params@[j],
        ) == crate::rotation::rows4(identity) by {
            assert(crate::rotation::rows4(params@[j]) =~~= e);
            assert(crate::rotation::rows4(identity) =~~= e);
        }
    }
    if model.figure.skinning_method == SkinningMethod::Lbs {
        lemma_skinned(ops, zero, one, model, coefficients@, rows, mode, out, b, value);
    }
    (row, heads[b]@, tails[b]@, given, identity)
}

#[verifier::rlimit(40)]
proof fn lemma_skinned<T: Copy, O: EndpointOps<T> + MotionOps<T>>(
    ops: &O,
    zero: T,
    one: T,
    model: Model<T>,
    coefficients: Seq<Vec<T>>,
    pose: Option<Seq<Vec<[[T; 4]; 4]>>>,
    mode: PoseParameterization,
    out: ForwardOutput<T>,
    b: int,
    value: spec_fn(T) -> real,
)
    requires
        crate::scalar::is_exact(ops, value),
        value(zero) == 0 as real,
        value(one) == 1 as real,
        model.wf(),
        model.figure.skinning_method == SkinningMethod::Lbs,
        crate::models::forward::is_forward(
            ops,
            zero,
            one,
            model,
            coefficients,
            pose,
            mode,
            out,
        ),
        0 <= b < out.vertices@.len(),
    ensures
        are_skinned(
            value,
            model,
            out.skeletons@[b].transforms@,
            out.rest_vertices@[b]@,
            out.vertices@[b]@,
        ),
{
    let transforms = crate::models::forward::transforms_of(out.skeletons@);
    let (rest, vertices) = (out.rest_vertices@[b]@, out.vertices@[b]@);
    let n = model.figure.bone_labels@.len() as int;
    assert forall|i: int|
        0 <= i < vertices.len() && (forall|k: int|
            0 <= k < model.figure.vertex_bones.indices@[i]@.len()
                ==> (#[trigger] model.figure.vertex_bones.indices@[i]@[k])
                < model.figure.bone_labels@.len()) implies is_sum_of_carried(
        value,
        model.figure.vertex_bones.weights@[i]@,
        model.figure.vertex_bones.indices@[i]@,
        out.skeletons@[b].transforms@,
        rest[i],
        #[trigger] vertices[i],
    ) by {
        let weights = model.figure.vertex_bones.weights@[i]@;
        let bones = model.figure.vertex_bones.indices@[i]@;
        let ms = crate::skinning::gathered(transforms, n, b, bones);
        let q = out.vertices@[b]@[i];
        assert(crate::models::forward::is_moved_vertex(
            ops,
            zero,
            one,
            model,
            out.rest_vertices@,
            transforms,
            b,
            i,
            q,
        ));
        assert forall|k: int| 0 <= k < bones.len() implies #[trigger] ms[k]
            == out.skeletons@[b].transforms@[bones[k] as int] by {
            vstd::arithmetic::div_mod::lemma_fundamental_div_mod_converse(
                b * n + bones[k],
                n,
                b,
                bones[k] as int,
            );
        }
        assert forall|c: int| 0 <= c < 3 implies value(#[trigger] q@[c])
            == crate::utils::sums::sum(
            |k: int|
                value(weights[k]) * carried(
                    value,
                    out.skeletons@[b].transforms@[bones[k] as int],
                    rest[i],
                    c,
                ),
            weights.len(),
        ) by {
            assert(c == 0 || c == 1 || c == 2);
            lemma_carried(ops, zero, one, weights, ms, rest[i], c, q@[c], value);
            crate::utils::sums::lemma_same_sum(
                |k: int| value(weights[k]) * carried(value, ms[k], rest[i], c),
                |k: int|
                    value(weights[k]) * carried(
                        value,
                        out.skeletons@[b].transforms@[bones[k] as int],
                        rest[i],
                        c,
                    ),
                weights.len(),
            );
        }
    }
}

} // verus!
