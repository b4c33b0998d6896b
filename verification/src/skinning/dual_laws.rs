//! What dual quaternion skinning comes to in exact arithmetic.
use vstd::prelude::*;

use crate::scalar::Arithmetic;
use crate::skinning::dual::{DualQuaternion, MotionOps};

verus! {

/// The operations are exact in the numbers that `value` stands for.
pub open spec fn moves_exactly<T, O: MotionOps<T>>(ops: &O, value: spec_fn(T) -> real) -> bool {
    &&& crate::unit_quaternion_laws::turns_exactly(ops, value)
    &&& forall|a: T, r: T| #[trigger]
        crate::skinning::dual::half_of(ops, a, r) ==> value(r) + value(r) == value(a)
    &&& forall|a: T, r: T| #[trigger]
        crate::skinning::dual::double_of(ops, a, r) ==> value(r) == value(a) + value(a)
    &&& forall|a: T, r: T| #[trigger]
        crate::skinning::dual::root_of(ops, a, r) && value(a) >= 0 as real ==> value(r)
            >= 0 as real && value(r) * value(r) == value(a)
    &&& forall|a: T, r: bool| #[trigger]
        crate::skinning::dual::says_not_negative(ops, a, r) ==> r == (value(a) >= 0 as real)
}

pub proof fn lemma_four<T, O: MotionOps<T>>(
    ops: &O,
    a: Seq<T>,
    b: Seq<T>,
    r: T,
    value: spec_fn(T) -> real,
)
    requires
        crate::scalar::is_exact(ops, value),
        crate::rotation::is_signed_sum(ops, crate::skinning::dual::four_terms(a, b), r),
    ensures
        value(r) == value(a[0]) * value(b[0]) + value(a[1]) * value(b[1]) + value(a[2]) * value(
            b[2],
        ) + value(a[3]) * value(b[3]),
{
    let terms = crate::skinning::dual::four_terms(a, b);
    crate::rotation_laws::law_exact_signed_sum(ops, terms, r, value);
    crate::rotation_laws::lemma_four_terms(value, terms);
}

pub proof fn lemma_square(a: real)
    ensures
        a * a >= 0 as real,
{
    assert(a * a >= 0 as real) by (nonlinear_arith);
}

/// A motion agrees with itself.
proof fn lemma_agrees<T, O: MotionOps<T>>(
    ops: &O,
    q: DualQuaternion<T>,
    value: spec_fn(T) -> real,
)
    requires
        moves_exactly(ops, value),
    ensures
        !crate::skinning::dual::is_agreement(ops, q, q, false),
{
    if crate::skinning::dual::is_agreement(ops, q, q, false) {
        let d = choose|d: T| #[trigger]
            crate::skinning::dual::is_dual_inner(ops, q, q, d)
                && crate::skinning::dual::says_not_negative(ops, d, false);
        let (x, y) = choose|x: T, y: T|
            {
                &&& #[trigger] crate::rotation::is_signed_sum(
                    ops,
                    crate::skinning::dual::four_terms(q.0@, q.0@),
                    x,
                )
                &&& #[trigger] crate::rotation::is_signed_sum(
                    ops,
                    crate::skinning::dual::four_terms(q.1@, q.1@),
                    y,
                )
                &&& crate::scalar::sum_of(ops, x, y, d)
            };
        lemma_four(ops, q.0@, q.0@, x, value);
        lemma_four(ops, q.1@, q.1@, y, value);
        lemma_square(value(q.0@[0]));
        lemma_square(value(q.0@[1]));
        lemma_square(value(q.0@[2]));
        lemma_square(value(q.0@[3]));
        lemma_square(value(q.1@[0]));
        lemma_square(value(q.1@[1]));
        lemma_square(value(q.1@[2]));
        lemma_square(value(q.1@[3]));
        assert(value(d) >= 0 as real);
    }
}

proof fn lemma_over_one(a: real)
    ensures
        a / (1 as real) == a,
{
    assert(a / (1 as real) == a) by (nonlinear_arith);
}

proof fn lemma_root_of_one(n: real)
    requires
        n >= 0 as real,
        n * n == 1 as real,
    ensures
        n == 1 as real,
{
    assert(n == 1 as real) by (nonlinear_arith)
        requires
            n >= 0 as real,
            n * n == 1 as real,
    ;
}

/// A motion of unit length is its own unit.
proof fn lemma_unit<T, O: MotionOps<T>>(
    ops: &O,
    q: DualQuaternion<T>,
    u: DualQuaternion<T>,
    value: spec_fn(T) -> real,
)
    requires
        moves_exactly(ops, value),
        crate::rotation_laws::norm(crate::rotation_laws::quaternion(value, q.0@)) == 1 as real,
        crate::skinning::dual::is_unit(ops, q, u),
    ensures
        crate::rotation_laws::quaternion(value, u.0@) == crate::rotation_laws::quaternion(
            value,
            q.0@,
        ),
        crate::rotation_laws::quaternion(value, u.1@) == crate::rotation_laws::quaternion(
            value,
            q.1@,
        ),
{
    let (square, norm) = choose|square: T, norm: T|
        {
            &&& #[trigger] crate::rotation::is_signed_sum(
                ops,
                crate::skinning::dual::four_terms(q.0@, q.0@),
                square,
            )
            &&& #[trigger] crate::skinning::dual::root_of(ops, square, norm)
            &&& crate::skinning::dual::is_scaled_quat(ops, norm, q.0@, u.0@)
            &&& crate::skinning::dual::is_scaled_quat(ops, norm, q.1@, u.1@)
        };
    lemma_four(ops, q.0@, q.0@, square, value);
    lemma_root_of_one(value(norm));
    assert forall|c: int| 0 <= c < 4 implies value(#[trigger] u.0@[c]) == value(q.0@[c]) by {
        lemma_over_one(value(q.0@[c]));
    }
    assert forall|c: int| 0 <= c < 4 implies value(#[trigger] u.1@[c]) == value(q.1@[c]) by {
        lemma_over_one(value(q.1@[c]));
    }
    assert(value(u.0@[0]) == value(q.0@[0]) && value(u.0@[1]) == value(q.0@[1]));
    assert(value(u.0@[2]) == value(q.0@[2]) && value(u.0@[3]) == value(q.0@[3]));
    assert(value(u.1@[0]) == value(q.1@[0]) && value(u.1@[1]) == value(q.1@[1]));
    assert(value(u.1@[2]) == value(q.1@[2]) && value(u.1@[3]) == value(q.1@[3]));
}

/// In exact arithmetic the motion of a rigid transform takes a point to where
/// the transform takes it. `q` are the quaternions of the transform, and
/// `mean` is a motion with the same values.
pub proof fn law_motion_of_transform<T, O: MotionOps<T>>(
    ops: &O,
    zero: T,
    one: T,
    h: Seq<Seq<T>>,
    q: DualQuaternion<T>,
    mean: DualQuaternion<T>,
    p: Seq<T>,
    r: Seq<T>,
    value: spec_fn(T) -> real,
)
    requires
        moves_exactly(ops, value),
        value(zero) == 0 as real,
        value(one) == 1 as real,
        crate::unit_quaternion_laws::has_unit_rows(
            crate::unit_quaternion_laws::matrix(value, crate::rotation::linear_part(h)),
        ),
        crate::unit_quaternion_laws::determinant(
            crate::unit_quaternion_laws::matrix(value, crate::rotation::linear_part(h)),
        ) == 1 as real,
        p.len() == 3,
        crate::skinning::dual::is_dual(ops, one, h, q),
        crate::rotation_laws::quaternion(value, mean.0@) == crate::rotation_laws::quaternion(
            value,
            q.0@,
        ),
        crate::rotation_laws::quaternion(value, mean.1@) == crate::rotation_laws::quaternion(
            value,
            q.1@,
        ),
        crate::skinning::dual::is_moved(ops, zero, mean, p, r),
    ensures
        forall|c: int|
            0 <= c < 3 ==> value(#[trigger] r[c]) == crate::rotation_laws::inner(
                value,
                crate::rotation::linear_part(h)[c],
                p,
            ) + value(crate::rotation::translation_part(h)[c]),
{
    let linear = crate::rotation::linear_part(h);
    let t = crate::rotation::translation_part(h);
    let m = crate::unit_quaternion_laws::matrix(value, linear);
    let turn = crate::rotation_laws::quaternion(value, q.0@);
    crate::unit_quaternion_laws::law_unit_quaternion(ops, linear, one, q.0@, value);
    let half = choose|half: Seq<T>| #[trigger]
        crate::skinning::dual::are_halves(ops, t, half) && crate::rotation::is_product(
            ops,
            half.push(one),
            q.0@,
            q.1@,
        );
    let (u, conjugate, way, turned) = choose|
        u: DualQuaternion<T>,
        conjugate: Seq<T>,
        way: Seq<T>,
        turned: Seq<T>,
    |
        {
            &&& #[trigger] crate::skinning::dual::is_unit(ops, mean, u)
            &&& #[trigger] crate::rotation::is_conjugate(ops, u.0@, conjugate)
            &&& #[trigger] crate::rotation::is_product(ops, u.1@, conjugate, way)
            &&& #[trigger] crate::rotation::is_action(ops, zero, u.0@, p, turned)
            &&& r.len() == 3
            &&& forall|c: int|
                0 <= c < 3 ==> crate::skinning::dual::is_landing(
                    ops,
                    turned[c],
                    way[c],
                    #[trigger] r[c],
                )
        };
    lemma_unit(ops, mean, u, value);
    // The way is half the translation.
    let ahead = crate::rotation_laws::quaternion(value, half.push(one));
    let back = crate::rotation_laws::conjugate(turn);
    crate::rotation_laws::law_exact_product(ops, half.push(one), q.0@, q.1@, value);
    crate::rotation_laws::law_exact_product(ops, u.1@, conjugate, way, value);
    assert(crate::rotation_laws::quaternion(value, conjugate) == back);
    crate::rotation_laws::law_product_associative(ahead, turn, back);
    crate::rotation_laws::law_conjugate_inverse(turn);
    crate::rotation_laws::law_product_identity(ahead);
    assert(crate::rotation_laws::quaternion(value, way) == ahead);
    // The point is turned as by the matrix.
    crate::rotation_laws::law_exact_action(ops, zero, u.0@, p, turned, value);
    crate::unit_quaternion_laws::law_turns_alike(
        m,
        turn,
        crate::rotation_laws::quaternion(value, p.push(zero)),
    );
    assert forall|c: int| 0 <= c < 3 implies value(#[trigger] r[c])
        == crate::rotation_laws::inner(value, linear[c], p) + value(t[c]) by {
        assert(crate::skinning::dual::is_landing(ops, turned[c], way[c], r[c]));
        assert(crate::skinning::dual::half_of(ops, t[c], half[c]));
        assert(c == 0 || c == 1 || c == 2);
        assert(value(way[c]) == value(half[c]));
    }
}

/// One bone with the weight one: its motion has the values of its transform.
proof fn lemma_single_mean<T, O: Arithmetic<T>>(
    ops: &O,
    zero: T,
    weights: Seq<T>,
    qs: Seq<DualQuaternion<T>>,
    mean: DualQuaternion<T>,
    translation: bool,
    c: int,
    value: spec_fn(T) -> real,
)
    requires
        crate::scalar::is_exact(ops, value),
        value(zero) == 0 as real,
        weights.len() == 1,
        qs.len() == 1,
        value(weights[0]) == 1 as real,
        crate::skinning::is_mean(ops, zero, weights, qs, mean),
        0 <= c < 4,
    ensures
        value(crate::skinning::part(mean, translation)[c]) == value(
            crate::skinning::part(qs[0], translation)[c],
        ),
{
    let terms = crate::skinning::component_terms(weights, qs, translation, c);
    let r = crate::skinning::part(mean, translation)[c];
    assert(crate::utils::blend::is_blend(ops, zero, terms, r));
    crate::utils::blend::law_exact_blend(ops, zero, terms, r, value);
    assert(terms.drop_last().len() == 0);
    assert(crate::utils::blend::exact_sum(value, terms.drop_last()) == 0 as real);
    let x = value(crate::skinning::part(qs[0], translation)[c]);
    assert((1 as real) * x == x) by (nonlinear_arith);
}

/// In exact arithmetic a vertex of one bone goes to the same place by either
/// way of skinning.
pub proof fn law_one_bone_alike<T, O: MotionOps<T>>(
    ops: &O,
    zero: T,
    one: T,
    weights: Seq<T>,
    ms: Seq<[[T; 4]; 4]>,
    p: [T; 3],
    linear: Seq<T>,
    dual: [T; 3],
    value: spec_fn(T) -> real,
)
    requires
        moves_exactly(ops, value),
        crate::scalar::is_exact(ops, value),
        value(zero) == 0 as real,
        value(one) == 1 as real,
        weights.len() == 1,
        ms.len() == 1,
        value(weights[0]) == 1 as real,
        crate::unit_quaternion_laws::has_unit_rows(
            crate::unit_quaternion_laws::matrix(
                value,
                crate::rotation::linear_part(crate::rotation::rows4(ms[0])),
            ),
        ),
        crate::unit_quaternion_laws::determinant(
            crate::unit_quaternion_laws::matrix(
                value,
                crate::rotation::linear_part(crate::rotation::rows4(ms[0])),
            ),
        ) == 1 as real,
        crate::skinning::is_skinned(ops, zero, one, weights, ms, p@, linear),
        crate::skinning::is_dual_skinned(ops, zero, one, weights, ms, p, dual),
    ensures
        value(dual@[0]) == value(linear[0]),
        value(dual@[1]) == value(linear[1]),
        value(dual@[2]) == value(linear[2]),
{
    let h = crate::rotation::rows4(ms[0]);
    let (raw, aligned, mean) = choose|
        raw: Seq<DualQuaternion<T>>,
        aligned: Seq<DualQuaternion<T>>,
        mean: DualQuaternion<T>,
    |
        {
            &&& #[trigger] crate::skinning::are_duals(ops, one, ms, raw)
            &&& #[trigger] crate::skinning::are_aligned(ops, raw, aligned)
            &&& #[trigger] crate::skinning::is_mean(ops, zero, weights, aligned, mean)
            &&& crate::skinning::dual::is_moved(ops, zero, mean, p@, dual@)
        };
    let q = raw[0];
    assert(crate::skinning::dual::is_dual(ops, one, h, q));
    lemma_agrees(ops, q, value);
    assert(crate::skinning::is_aligned(ops, q, q, aligned[0]));
    assert(aligned[0] == q);
    assert forall|translation: bool, c: int| 0 <= c < 4 implies value(
        #[trigger] crate::skinning::part(mean, translation)[c],
    ) == value(crate::skinning::part(q, translation)[c]) by {
        lemma_single_mean(ops, zero, weights, aligned, mean, translation, c, value);
    }
    assert(value(crate::skinning::part(mean, false)[0]) == value(q.0@[0]));
    assert(value(crate::skinning::part(mean, false)[1]) == value(q.0@[1]));
    assert(value(crate::skinning::part(mean, false)[2]) == value(q.0@[2]));
    assert(value(crate::skinning::part(mean, false)[3]) == value(q.0@[3]));
    assert(value(crate::skinning::part(mean, true)[0]) == value(q.1@[0]));
    assert(value(crate::skinning::part(mean, true)[1]) == value(q.1@[1]));
    assert(value(crate::skinning::part(mean, true)[2]) == value(q.1@[2]));
    assert(value(crate::skinning::part(mean, true)[3]) == value(q.1@[3]));
    law_motion_of_transform(ops, zero, one, h, q, mean, p@, dual@, value);
    let shared = |r: int, c: int| value(ms[0]@[r]@[c]);
    crate::skinning_laws::law_shared_transform(
        ops,
        zero,
        one,
        weights,
        ms,
        p@,
        linear,
        value,
        shared,
    );
    assert(weights.drop_last().len() == 0);
    assert(crate::utils::shares::exact_total(value, weights.drop_last()) == 0 as real);
    assert(crate::utils::shares::exact_total(value, weights) == 1 as real);
    assert forall|c: int| 0 <= c < 3 implies value(dual@[c]) == crate::skinning_laws::moved(
        value,
        shared,
        p@,
        c,
    ) by {
        assert(value(dual@[c]) == crate::rotation_laws::inner(
            value,
            crate::rotation::linear_part(h)[c],
            p@,
        ) + value(crate::rotation::translation_part(h)[c]));
        assert(c == 0 || c == 1 || c == 2);
    }
    let (x, y, z) = (value(dual@[0]), value(dual@[1]), value(dual@[2]));
    assert((1 as real) * x == x) by (nonlinear_arith);
    assert((1 as real) * y == y) by (nonlinear_arith);
    assert((1 as real) * z == z) by (nonlinear_arith);
}

} // verus!
