//! What skinning and blend shapes come to in exact arithmetic.
use vstd::prelude::*;

use crate::scalar::Arithmetic;

verus! {

/// Every transform has the entries of `shared`.
pub open spec fn all_equal<T>(
    value: spec_fn(T) -> real,
    ms: Seq<[[T; 4]; 4]>,
    shared: spec_fn(int, int) -> real,
) -> bool {
    forall|s: int, r: int, c: int|
        0 <= s < ms.len() && 0 <= r < 4 && 0 <= c < 4 ==> value(#[trigger] ms[s]@[r]@[c])
            == shared(r, c)
}

/// A coordinate of a point under the transform with the entries of `shared`.
pub open spec fn moved<T>(
    value: spec_fn(T) -> real,
    shared: spec_fn(int, int) -> real,
    p: Seq<T>,
    r: int,
) -> real {
    shared(r, 0) * value(p[0]) + shared(r, 1) * value(p[1]) + shared(r, 2) * value(p[2]) + shared(
        r,
        3,
    )
}

proof fn lemma_entry_sum<T>(
    value: spec_fn(T) -> real,
    weights: Seq<T>,
    ms: Seq<[[T; 4]; 4]>,
    shared: spec_fn(int, int) -> real,
    r: int,
    c: int,
)
    requires
        weights.len() == ms.len(),
        all_equal(value, ms, shared),
        0 <= r < 4,
        0 <= c < 4,
    ensures
        crate::utils::blend::exact_sum(
            value,
            crate::skinning::entry_terms(weights, ms, r, c),
        ) == crate::utils::shares::exact_total(value, weights) * shared(r, c),
    decreases weights.len(),
{
    let terms = crate::skinning::entry_terms(weights, ms, r, c);
    if weights.len() > 0 {
        let w = weights.drop_last();
        let m = ms.drop_last();
        assert forall|s: int, r: int, c: int|
            0 <= s < m.len() && 0 <= r < 4 && 0 <= c < 4 implies value(#[trigger] m[s]@[r]@[c])
            == shared(r, c) by {
            assert(m[s] == ms[s]);
            assert(value(ms[s]@[r]@[c]) == shared(r, c));
        }
        lemma_entry_sum(value, w, m, shared, r, c);
        assert(terms.drop_last() =~= crate::skinning::entry_terms(w, m, r, c));
        assert(value(ms[ms.len() - 1]@[r]@[c]) == shared(r, c));
        let e = shared(r, c);
        let t = crate::utils::shares::exact_total(value, w);
        let x = value(weights.last());
        assert(t * e + x * e == (t + x) * e) by (nonlinear_arith);
    } else {
        assert(terms.len() == 0);
    }
}

proof fn lemma_coordinate<T, O: Arithmetic<T>>(
    ops: &O,
    zero: T,
    one: T,
    weights: Seq<T>,
    ms: Seq<[[T; 4]; 4]>,
    p: Seq<T>,
    r: int,
    q: T,
    value: spec_fn(T) -> real,
    shared: spec_fn(int, int) -> real,
)
    requires
        crate::scalar::is_exact(ops, value),
        value(zero) == 0 as real,
        value(one) == 1 as real,
        weights.len() == ms.len(),
        all_equal(value, ms, shared),
        0 <= r < 3,
        crate::skinning::is_skinned_coordinate(ops, zero, one, weights, ms, p, r, q),
    ensures
        value(q) == crate::utils::shares::exact_total(value, weights) * moved(value, shared, p, r),
{
    let row = choose|row: Seq<T>| #[trigger]
        crate::skinning::is_blended_row(ops, zero, weights, ms, r, row)
            && crate::utils::blend::is_blend(
            ops,
            zero,
            crate::skinning::row_terms(row, p, one),
            q,
        );
    let t = crate::utils::shares::exact_total(value, weights);
    assert forall|c: int| 0 <= c < 4 implies value(#[trigger] row[c]) == t * shared(r, c) by {
        crate::utils::blend::law_exact_blend(
            ops,
            zero,
            crate::skinning::entry_terms(weights, ms, r, c),
            row[c],
            value,
        );
        lemma_entry_sum(value, weights, ms, shared, r, c);
    }
    let terms = crate::skinning::row_terms(row, p, one);
    crate::utils::blend::law_exact_blend(ops, zero, terms, q, value);
    let three = terms.drop_last();
    let two = three.drop_last();
    let first = two.drop_last();
    assert(first.drop_last().len() == 0);
    assert(crate::utils::blend::exact_sum(value, first.drop_last()) == 0 as real);
    assert(crate::utils::blend::exact_sum(value, first) == value(row[0]) * value(p[0]));
    assert(crate::utils::blend::exact_sum(value, two) == value(row[0]) * value(p[0]) + value(row[1])
        * value(p[1]));
    let a = shared(r, 0);
    let b = shared(r, 1);
    let c = shared(r, 2);
    let d = shared(r, 3);
    let x = value(p[0]);
    let y = value(p[1]);
    let z = value(p[2]);
    assert(crate::utils::blend::exact_sum(value, three) == value(row[0]) * value(p[0]) + value(
        row[1],
    ) * value(p[1]) + value(row[2]) * value(p[2]));
    assert(value(row[0]) == t * a && value(row[1]) == t * b && value(row[2]) == t * c && value(
        row[3],
    ) == t * d);
    lemma_factor(t, a, b, c, d, x, y, z);
}

proof fn lemma_factor(t: real, a: real, b: real, c: real, d: real, x: real, y: real, z: real)
    ensures
        (t * a) * x + (t * b) * y + (t * c) * z + (t * d) * (1 as real) == t * (a * x + b * y + c * z + d),
{
    assert((t * a) * x == t * (a * x)) by (nonlinear_arith);
    assert((t * b) * y == t * (b * y)) by (nonlinear_arith);
    assert((t * c) * z == t * (c * z)) by (nonlinear_arith);
    let u = a * x;
    let v = b * y;
    let w = c * z;
    assert(t * u + t * v + t * w + t * d == t * (u + v + w + d)) by (nonlinear_arith);
}

/// In exact arithmetic a point whose bones all have the same transform goes
/// where that transform takes it, times the sum of its weights. With weights
/// that sum to 1, identity transforms leave it in place.
pub proof fn law_shared_transform<T, O: Arithmetic<T>>(
    ops: &O,
    zero: T,
    one: T,
    weights: Seq<T>,
    ms: Seq<[[T; 4]; 4]>,
    p: Seq<T>,
    q: Seq<T>,
    value: spec_fn(T) -> real,
    shared: spec_fn(int, int) -> real,
)
    requires
        crate::scalar::is_exact(ops, value),
        value(zero) == 0 as real,
        value(one) == 1 as real,
        weights.len() == ms.len(),
        all_equal(value, ms, shared),
        crate::skinning::is_skinned(ops, zero, one, weights, ms, p, q),
    ensures
        value(q[0]) == crate::utils::shares::exact_total(value, weights) * moved(value, shared, p, 0),
        value(q[1]) == crate::utils::shares::exact_total(value, weights) * moved(value, shared, p, 1),
        value(q[2]) == crate::utils::shares::exact_total(value, weights) * moved(value, shared, p, 2),
        (crate::utils::shares::exact_total(value, weights) == 1 as real && forall|r: int, c: int|
            #[trigger] shared(r, c) == if r == c {
                1 as real
            } else {
                0 as real
            }) ==> value(q[0]) == value(p[0]) && value(q[1]) == value(p[1]) && value(q[2]) == value(
            p[2],
        ),
{
    lemma_coordinate(ops, zero, one, weights, ms, p, 0, q[0], value, shared);
    lemma_coordinate(ops, zero, one, weights, ms, p, 1, q[1], value, shared);
    lemma_coordinate(ops, zero, one, weights, ms, p, 2, q[2], value, shared);
    let unit = 1 as real;
    let none = 0 as real;
    if crate::utils::shares::exact_total(value, weights) == unit && forall|r: int, c: int| #[trigger]
        shared(r, c) == if r == c {
            1 as real
        } else {
            0 as real
        } {
        let x = value(p[0]);
        let y = value(p[1]);
        let z = value(p[2]);
        assert(shared(0, 0) == unit && shared(0, 1) == none && shared(0, 2) == none && shared(0, 3)
            == none);
        assert(shared(1, 0) == none && shared(1, 1) == unit && shared(1, 2) == none && shared(1, 3)
            == none);
        assert(shared(2, 0) == none && shared(2, 1) == none && shared(2, 2) == unit && shared(2, 3)
            == none);
        lemma_unit(x);
        lemma_unit(y);
        lemma_unit(z);
    }
}

proof fn lemma_unit(x: real)
    ensures
        (1 as real) * x == x,
        (0 as real) * x == 0 as real,
{
    assert((1 as real) * x == x && (0 as real) * x == 0 as real) by (nonlinear_arith);
}

/// In exact arithmetic a shaped coordinate is the template with the sum of
/// the weighted shapes added; without a shape it is the template.
pub proof fn law_exact_shape<T, O: Arithmetic<T>>(
    ops: &O,
    zero: T,
    template: Seq<[T; 3]>,
    shapes: Seq<Vec<[T; 3]>>,
    coefficients: Seq<T>,
    i: int,
    c: int,
    q: T,
    value: spec_fn(T) -> real,
)
    requires
        crate::scalar::is_exact(ops, value),
        value(zero) == 0 as real,
        crate::skinning::is_shaped(
            ops,
            zero,
            template,
            shapes,
            coefficients,
            i,
            c,
            q,
        ),
    ensures
        value(q) == value(template[i]@[c]) + crate::utils::blend::exact_sum(
            value,
            crate::skinning::shape_terms(coefficients, shapes, i, c),
        ),
        shapes.len() == 0 ==> value(q) == value(template[i]@[c]),
{
    let mixed = choose|mixed: T| #[trigger]
        crate::scalar::sum_of(ops, template[i]@[c], mixed, q) && crate::utils::blend::is_blend(
            ops,
            zero,
            crate::skinning::shape_terms(coefficients, shapes, i, c),
            mixed,
        );
    crate::utils::blend::law_exact_blend(
        ops,
        zero,
        crate::skinning::shape_terms(coefficients, shapes, i, c),
        mixed,
        value,
    );
}

} // verus!
