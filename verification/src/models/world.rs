//! From the axes and the units of the files to those of the model, and the
//! proportions of newborns.
use vstd::prelude::*;

use crate::rotation::inner;
use crate::scalar::{Arithmetic, Division};

verus! {

/// The rows of the transform: a quarter turn that takes the second axis to the
/// third, and a change of scale.
pub open spec fn world_rows<T>(scale: T, negative: T, zero: T) -> Seq<Seq<T>> {
    seq![seq![scale, zero, zero], seq![zero, zero, negative], seq![zero, scale, zero]]
}

/// The transform from the axes of the files to those of the model, with the
/// given scale.
pub fn default_world_transform<T: Copy, O: Arithmetic<T>>(scale: T, zero: T, ops: &O) -> (r: [[T;
    3]; 3])
    ensures
        exists|negative: T| #[trigger]
            crate::scalar::negative_of(ops, scale, negative) && crate::rotation::rows3(r)
                =~~= world_rows(scale, negative, zero),
{
    let negative = ops.negative(scale);
    let r = [[scale, zero, zero], [zero, zero, negative], [zero, scale, zero]];
    assert(crate::scalar::negative_of(ops, scale, negative));
    assert(crate::rotation::rows3(r) =~~= world_rows(scale, negative, zero));
    r
}

/// `w` is the point `v` under the matrix.
pub open spec fn is_transformed<T, O: Arithmetic<T>>(
    ops: &O,
    m: Seq<Seq<T>>,
    v: Seq<T>,
    w: Seq<T>,
) -> bool {
    &&& crate::rotation::is_inner(ops, m[0], v, w[0])
    &&& crate::rotation::is_inner(ops, m[1], v, w[1])
    &&& crate::rotation::is_inner(ops, m[2], v, w[2])
}

/// The points under the matrix.
pub fn apply_world_transform<T: Copy, O: Arithmetic<T>>(
    points: &Vec<[T; 3]>,
    m: &[[T; 3]; 3],
    ops: &O,
) -> (r: Vec<[T; 3]>)
    ensures
        r@.len() == points@.len(),
        forall|i: int|
            0 <= i < r@.len() ==> is_transformed(
                ops,
                crate::rotation::rows3(*m),
                points@[i]@,
                (#[trigger] r@[i])@,
            ),
{
    let mut r: Vec<[T; 3]> = Vec::new();
    for i in 0..points.len()
        invariant
            r@.len() == i,
            forall|j: int|
                0 <= j < i ==> is_transformed(
                    ops,
                    crate::rotation::rows3(*m),
                    points@[j]@,
                    (#[trigger] r@[j])@,
                ),
    {
        let v = points[i];
        r.push([inner(ops, &m[0], &v), inner(ops, &m[1], &v), inner(ops, &m[2], &v)]);
    }
    r
}

/// `extra` is `(scaling - one) / factor`.
pub open spec fn is_extra<T, O: Division<T>>(
    ops: &O,
    scaling: T,
    factor: T,
    one: T,
    extra: T,
) -> bool {
    exists|less: T| #[trigger]
        crate::scalar::difference_of(ops, scaling, one, less) && crate::scalar::quotient_of(
            ops,
            less,
            factor,
            extra,
        )
}

/// `r` is `scaling * x + (scaling - one) / factor * t`.
pub open spec fn is_newborn_coordinate<T, O: Division<T>>(
    ops: &O,
    scaling: T,
    factor: T,
    one: T,
    x: T,
    t: T,
    r: T,
) -> bool {
    exists|extra: T, a: T, b: T|
        {
            &&& #[trigger] is_extra(ops, scaling, factor, one, extra)
            &&& #[trigger] crate::scalar::product_of(ops, scaling, x, a)
            &&& #[trigger] crate::scalar::product_of(ops, extra, t, b)
            &&& crate::scalar::sum_of(ops, a, b, r)
        }
}

fn newborn_coordinate<T: Copy, O: Division<T>>(
    ops: &O,
    scaling: T,
    factor: T,
    one: T,
    x: T,
    t: T,
) -> (r: T)
    ensures
        is_newborn_coordinate(ops, scaling, factor, one, x, t, r),
{
    let a = ops.times(scaling, x);
    let less = ops.minus(scaling, one);
    let extra = ops.quotient(less, factor);
    let b = ops.times(extra, t);
    let r = ops.plus(a, b);
    proof {
        assert(crate::scalar::difference_of(ops, scaling, one, less));
        assert(is_extra(ops, scaling, factor, one, extra));
        assert(crate::scalar::product_of(ops, scaling, x, a));
        assert(crate::scalar::product_of(ops, extra, t, b));
    }
    r
}

/// The shape of a newborn in its proportions: each offset scaled, and the
/// template added, scaled by as much less one, over `factor`.
pub fn apply_newborn_scaling<T: Copy, O: Division<T>>(
    shape: &Vec<[T; 3]>,
    template: &Vec<[T; 3]>,
    scaling: &[T; 3],
    factor: T,
    one: T,
    ops: &O,
) -> (r: Vec<[T; 3]>)
    requires
        shape@.len() == template@.len(),
    ensures
        r@.len() == template@.len(),
        forall|i: int, c: int|
            0 <= i < r@.len() && 0 <= c < 3 ==> is_newborn_coordinate(
                ops,
                scaling@[c],
                factor,
                one,
                shape@[i]@[c],
                template@[i]@[c],
                #[trigger] r@[i]@[c],
            ),
{
    let mut r: Vec<[T; 3]> = Vec::new();
    for i in 0..template.len()
        invariant
            shape@.len() == template@.len(),
            r@.len() == i,
            forall|j: int, c: int|
                0 <= j < i && 0 <= c < 3 ==> is_newborn_coordinate(
                    ops,
                    scaling@[c],
                    factor,
                    one,
                    shape@[j]@[c],
                    template@[j]@[c],
                    #[trigger] r@[j]@[c],
                ),
    {
        let x = shape[i];
        let t = template[i];
        r.push(
            [
                newborn_coordinate(ops, scaling[0], factor, one, x[0], t[0]),
                newborn_coordinate(ops, scaling[1], factor, one, x[1], t[1]),
                newborn_coordinate(ops, scaling[2], factor, one, x[2], t[2]),
            ],
        );
    }
    r
}

proof fn lemma_row<T, O: Arithmetic<T>>(
    ops: &O,
    row: Seq<T>,
    v: Seq<T>,
    w: T,
    value: spec_fn(T) -> real,
)
    requires
        crate::scalar::is_exact(ops, value),
        crate::rotation::is_inner(ops, row, v, w),
    ensures
        value(w) == crate::rotation_laws::inner(value, row, v),
{
    let terms = crate::rotation::inner_terms(row, v);
    crate::rotation_laws::law_exact_signed_sum(ops, terms, w, value);
    crate::rotation_laws::lemma_three_terms(value, terms);
}

proof fn lemma_none(x: real)
    ensures
        (0 as real) * x == 0 as real,
{
    assert((0 as real) * x == 0 as real) by (nonlinear_arith);
}

/// In exact arithmetic the transform takes the second axis to the third and
/// the third to the opposite of the second, and scales every coordinate alike.
pub proof fn law_world_axes<T, O: Arithmetic<T>>(
    ops: &O,
    scale: T,
    negative: T,
    zero: T,
    v: Seq<T>,
    w: Seq<T>,
    value: spec_fn(T) -> real,
)
    requires
        crate::scalar::is_exact(ops, value),
        value(zero) == 0 as real,
        crate::scalar::negative_of(ops, scale, negative),
        is_transformed(ops, world_rows(scale, negative, zero), v, w),
    ensures
        value(w[0]) == value(scale) * value(v[0]),
        value(w[1]) == -(value(scale) * value(v[2])),
        value(w[2]) == value(scale) * value(v[1]),
{
    let rows = world_rows(scale, negative, zero);
    lemma_row(ops, rows[0], v, w[0], value);
    lemma_row(ops, rows[1], v, w[1], value);
    lemma_row(ops, rows[2], v, w[2], value);
    lemma_none(value(v[0]));
    lemma_none(value(v[1]));
    lemma_none(value(v[2]));
    let s = value(scale);
    let z = value(v[2]);
    assert(value(negative) == -s);
    assert((-s) * z == -(s * z)) by (nonlinear_arith);
}

} // verus!
