//! What quaternions and rigid transforms come to in exact arithmetic.
use vstd::prelude::*;

use crate::rotation::SignedProduct;
use crate::scalar::Arithmetic;

verus! {

/// The sum of signed products, the first taken as added.
pub open spec fn exact_signed_sum<T>(value: spec_fn(T) -> real, terms: Seq<SignedProduct<T>>) -> real
    decreases terms.len(),
{
    if terms.len() <= 1 {
        value(terms[0].left) * value(terms[0].right)
    } else {
        let p = value(terms.last().left) * value(terms.last().right);
        exact_signed_sum(value, terms.drop_last()) + if terms.last().added {
            p
        } else {
            -p
        }
    }
}

/// In exact arithmetic a signed sum is the sum of the signed products.
pub proof fn law_exact_signed_sum<T, O: Arithmetic<T>>(
    ops: &O,
    terms: Seq<SignedProduct<T>>,
    r: T,
    value: spec_fn(T) -> real,
)
    requires
        crate::scalar::is_exact(ops, value),
        crate::rotation::is_signed_sum(ops, terms, r),
    ensures
        value(r) == exact_signed_sum(value, terms),
    decreases terms.len(),
{
    if terms.len() > 1 {
        let before = choose|before: T|
            crate::rotation::is_signed_sum(ops, terms.drop_last(), before)
                && #[trigger] crate::rotation::is_step(ops, before, terms.last(), r);
        law_exact_signed_sum(ops, terms.drop_last(), before, value);
    }
}

/// A quaternion of real numbers.
pub struct Quaternion {
    pub x: real,
    pub y: real,
    pub z: real,
    pub w: real,
}

pub open spec fn quaternion<T>(value: spec_fn(T) -> real, q: Seq<T>) -> Quaternion {
    Quaternion { x: value(q[0]), y: value(q[1]), z: value(q[2]), w: value(q[3]) }
}

pub open spec fn product(p: Quaternion, q: Quaternion) -> Quaternion {
    Quaternion {
        x: p.w * q.x + p.x * q.w + p.y * q.z - p.z * q.y,
        y: p.w * q.y - p.x * q.z + p.y * q.w + p.z * q.x,
        z: p.w * q.z + p.x * q.y - p.y * q.x + p.z * q.w,
        w: p.w * q.w - p.x * q.x - p.y * q.y - p.z * q.z,
    }
}

pub open spec fn conjugate(q: Quaternion) -> Quaternion {
    Quaternion { x: -q.x, y: -q.y, z: -q.z, w: q.w }
}

pub open spec fn norm(q: Quaternion) -> real {
    q.x * q.x + q.y * q.y + q.z * q.z + q.w * q.w
}

pub proof fn lemma_four_terms<T>(value: spec_fn(T) -> real, terms: Seq<SignedProduct<T>>)
    requires
        terms.len() == 4,
    ensures
        exact_signed_sum(value, terms) == value(terms[0].left) * value(terms[0].right) + signed(
            value,
            terms[1],
        ) + signed(value, terms[2]) + signed(value, terms[3]),
{
    let three = terms.drop_last();
    let two = three.drop_last();
    let first = two.drop_last();
    assert(exact_signed_sum(value, first) == value(terms[0].left) * value(terms[0].right));
    assert(exact_signed_sum(value, two) == exact_signed_sum(value, first) + signed(value, terms[1]));
    assert(exact_signed_sum(value, three) == exact_signed_sum(value, two) + signed(
        value,
        terms[2],
    ));
}

pub open spec fn signed<T>(value: spec_fn(T) -> real, t: SignedProduct<T>) -> real {
    if t.added {
        value(t.left) * value(t.right)
    } else {
        -(value(t.left) * value(t.right))
    }
}

/// In exact arithmetic the product of quaternions is theirs.
pub proof fn law_exact_product<T, O: Arithmetic<T>>(
    ops: &O,
    p: Seq<T>,
    q: Seq<T>,
    r: Seq<T>,
    value: spec_fn(T) -> real,
)
    requires
        crate::scalar::is_exact(ops, value),
        crate::rotation::is_product(ops, p, q, r),
    ensures
        quaternion(value, r) == product(quaternion(value, p), quaternion(value, q)),
{
    assert forall|c: int| 0 <= c < 4 implies value(#[trigger] r[c]) == exact_signed_sum(
        value,
        crate::rotation::product_terms(p, q, c),
    ) by {
        law_exact_signed_sum(ops, crate::rotation::product_terms(p, q, c), r[c], value);
    }
    lemma_four_terms(value, crate::rotation::product_terms(p, q, 0));
    lemma_four_terms(value, crate::rotation::product_terms(p, q, 1));
    lemma_four_terms(value, crate::rotation::product_terms(p, q, 2));
    lemma_four_terms(value, crate::rotation::product_terms(p, q, 3));
    assert(value(r[0]) == product(quaternion(value, p), quaternion(value, q)).x);
    assert(value(r[1]) == product(quaternion(value, p), quaternion(value, q)).y);
    assert(value(r[2]) == product(quaternion(value, p), quaternion(value, q)).z);
    assert(value(r[3]) == product(quaternion(value, p), quaternion(value, q)).w);
}

/// The quaternion 1 changes nothing.
pub proof fn law_product_identity(q: Quaternion)
    ensures
        product(q, Quaternion { x: 0 as real, y: 0 as real, z: 0 as real, w: 1 as real }) == q,
        product(Quaternion { x: 0 as real, y: 0 as real, z: 0 as real, w: 1 as real }, q) == q,
{
}

/// The conjugate of a product is the product of the conjugates the other way
/// round.
pub proof fn law_conjugate_product(p: Quaternion, q: Quaternion)
    ensures
        conjugate(product(p, q)) == product(conjugate(q), conjugate(p)),
{
    lemma_signs(p.x, q.x);
    lemma_signs(p.x, q.y);
    lemma_signs(p.x, q.z);
    lemma_signs(p.x, q.w);
    lemma_signs(p.y, q.x);
    lemma_signs(p.y, q.y);
    lemma_signs(p.y, q.z);
    lemma_signs(p.y, q.w);
    lemma_signs(p.z, q.x);
    lemma_signs(p.z, q.y);
    lemma_signs(p.z, q.z);
    lemma_signs(p.z, q.w);
    lemma_signs(p.w, q.x);
    lemma_signs(p.w, q.y);
    lemma_signs(p.w, q.z);
    lemma_signs(p.w, q.w);
}

proof fn lemma_signs(a: real, b: real)
    ensures
        a * b == b * a,
        (-a) * b == -(a * b),
        a * (-b) == -(a * b),
        (-a) * (-b) == a * b,
        (-b) * a == -(a * b),
        b * (-a) == -(a * b),
        (-b) * (-a) == a * b,
{
    assert(a * b == b * a) by (nonlinear_arith);
    assert((-a) * b == -(a * b)) by (nonlinear_arith);
    assert(a * (-b) == -(a * b)) by (nonlinear_arith);
    assert((-a) * (-b) == a * b) by (nonlinear_arith);
    assert((-b) * a == -(a * b)) by (nonlinear_arith);
    assert(b * (-a) == -(a * b)) by (nonlinear_arith);
    assert((-b) * (-a) == a * b) by (nonlinear_arith);
}

/// A quaternion times its conjugate is the square of its length.
pub proof fn law_conjugate_inverse(q: Quaternion)
    ensures
        product(q, conjugate(q)) == (Quaternion { x: 0 as real, y: 0 as real, z: 0 as real, w: norm(q) }),
        product(conjugate(q), q) == (Quaternion { x: 0 as real, y: 0 as real, z: 0 as real, w: norm(q) }),
{
    lemma_signs(q.x, q.x);
    lemma_signs(q.x, q.y);
    lemma_signs(q.x, q.z);
    lemma_signs(q.x, q.w);
    lemma_signs(q.y, q.x);
    lemma_signs(q.y, q.y);
    lemma_signs(q.y, q.z);
    lemma_signs(q.y, q.w);
    lemma_signs(q.z, q.x);
    lemma_signs(q.z, q.y);
    lemma_signs(q.z, q.z);
    lemma_signs(q.z, q.w);
    lemma_signs(q.w, q.x);
    lemma_signs(q.w, q.y);
    lemma_signs(q.w, q.z);
    lemma_signs(q.w, q.w);
}

/// `(a + b + c + d) * e`, spread out, and each product grouped to the right.
proof fn lemma_spread(
    a1: real,
    a2: real,
    b1: real,
    b2: real,
    c1: real,
    c2: real,
    d1: real,
    d2: real,
    e: real,
)
    ensures
        (a1 * a2 + b1 * b2 + c1 * c2 + d1 * d2) * e == a1 * (a2 * e) + b1 * (b2 * e) + c1 * (c2 * e)
            + d1 * (d2 * e),
        (a1 * a2 + b1 * b2 + c1 * c2 - d1 * d2) * e == a1 * (a2 * e) + b1 * (b2 * e) + c1 * (c2 * e)
            - d1 * (d2 * e),
        (a1 * a2 - b1 * b2 + c1 * c2 + d1 * d2) * e == a1 * (a2 * e) - b1 * (b2 * e) + c1 * (c2 * e)
            + d1 * (d2 * e),
        (a1 * a2 + b1 * b2 - c1 * c2 + d1 * d2) * e == a1 * (a2 * e) + b1 * (b2 * e) - c1 * (c2 * e)
            + d1 * (d2 * e),
        (a1 * a2 - b1 * b2 - c1 * c2 - d1 * d2) * e == a1 * (a2 * e) - b1 * (b2 * e) - c1 * (c2 * e)
            - d1 * (d2 * e),
{
    let a = a1 * a2;
    let b = b1 * b2;
    let c = c1 * c2;
    let d = d1 * d2;
    lemma_distribute(a, b, c, d, e);
    lemma_distribute(a, b, c, -d, e);
    lemma_distribute(a, -b, c, d, e);
    lemma_distribute(a, b, -c, d, e);
    lemma_distribute(a, -b, -c, -d, e);
    lemma_signs(b, e);
    lemma_signs(c, e);
    lemma_signs(d, e);
    assert(a * e == a1 * (a2 * e)) by (nonlinear_arith)
        requires
            a == a1 * a2,
    ;
    assert(b * e == b1 * (b2 * e)) by (nonlinear_arith)
        requires
            b == b1 * b2,
    ;
    assert(c * e == c1 * (c2 * e)) by (nonlinear_arith)
        requires
            c == c1 * c2,
    ;
    assert(d * e == d1 * (d2 * e)) by (nonlinear_arith)
        requires
            d == d1 * d2,
    ;
}

proof fn lemma_distribute(a: real, b: real, c: real, d: real, e: real)
    ensures
        (a + b + c + d) * e == a * e + b * e + c * e + d * e,
        e * (a + b + c + d) == e * a + e * b + e * c + e * d,
{
    assert((a + b + c + d) * e == a * e + b * e + c * e + d * e) by (nonlinear_arith);
    assert(e * (a + b + c + d) == e * a + e * b + e * c + e * d) by (nonlinear_arith);
}

/// `e` times each component of a product, spread out.
proof fn lemma_left(e: real, p: Quaternion, q: Quaternion)
    ensures
        e * product(p, q).x == e * (p.w * q.x) + e * (p.x * q.w) + e * (p.y * q.z) - e * (p.z * q.y),
        e * product(p, q).y == e * (p.w * q.y) - e * (p.x * q.z) + e * (p.y * q.w) + e * (p.z * q.x),
        e * product(p, q).z == e * (p.w * q.z) + e * (p.x * q.y) - e * (p.y * q.x) + e * (p.z * q.w),
        e * product(p, q).w == e * (p.w * q.w) - e * (p.x * q.x) - e * (p.y * q.y) - e * (p.z * q.z),
{
    lemma_distribute(p.w * q.x, p.x * q.w, p.y * q.z, -(p.z * q.y), e);
    lemma_distribute(p.w * q.y, -(p.x * q.z), p.y * q.w, p.z * q.x, e);
    lemma_distribute(p.w * q.z, p.x * q.y, -(p.y * q.x), p.z * q.w, e);
    lemma_distribute(p.w * q.w, -(p.x * q.x), -(p.y * q.y), -(p.z * q.z), e);
    lemma_signs(e, p.z * q.y);
    lemma_signs(e, p.x * q.z);
    lemma_signs(e, p.y * q.x);
    lemma_signs(e, p.x * q.x);
    lemma_signs(e, p.y * q.y);
    lemma_signs(e, p.z * q.z);
}

/// Each component of a product times `e`, spread out.
proof fn lemma_right(p: Quaternion, q: Quaternion, e: real)
    ensures
        product(p, q).x * e == p.w * (q.x * e) + p.x * (q.w * e) + p.y * (q.z * e) - p.z * (q.y * e),
        product(p, q).y * e == p.w * (q.y * e) - p.x * (q.z * e) + p.y * (q.w * e) + p.z * (q.x * e),
        product(p, q).z * e == p.w * (q.z * e) + p.x * (q.y * e) - p.y * (q.x * e) + p.z * (q.w * e),
        product(p, q).w * e == p.w * (q.w * e) - p.x * (q.x * e) - p.y * (q.y * e) - p.z * (q.z * e),
{
    lemma_spread(p.w, q.x, p.x, q.w, p.y, q.z, p.z, q.y, e);
    lemma_spread(p.w, q.y, p.x, q.z, p.y, q.w, p.z, q.x, e);
    lemma_spread(p.w, q.z, p.x, q.y, p.y, q.x, p.z, q.w, e);
    lemma_spread(p.w, q.w, p.x, q.x, p.y, q.y, p.z, q.z, e);
}

/// The product of quaternions may be grouped either way.
pub proof fn law_product_associative(p: Quaternion, q: Quaternion, r: Quaternion)
    ensures
        product(product(p, q), r) == product(p, product(q, r)),
{
    lemma_right(p, q, r.x);
    lemma_right(p, q, r.y);
    lemma_right(p, q, r.z);
    lemma_right(p, q, r.w);
    lemma_left(p.x, q, r);
    lemma_left(p.y, q, r);
    lemma_left(p.z, q, r);
    lemma_left(p.w, q, r);
}

/// The length of a product is the product of the lengths.
pub proof fn law_norm_product(p: Quaternion, q: Quaternion)
    ensures
        norm(product(p, q)) == norm(p) * norm(q),
{
    let r = product(p, q);
    let c = conjugate(q);
    let d = conjugate(p);
    law_conjugate_product(p, q);
    law_conjugate_inverse(r);
    law_conjugate_inverse(p);
    law_conjugate_inverse(q);
    let n = Quaternion { x: 0 as real, y: 0 as real, z: 0 as real, w: norm(q) };
    law_product_associative(p, q, product(c, d));
    law_product_associative(q, c, d);
    assert(product(q, product(c, d)) == product(n, d));
    law_product_associative(p, n, d);
    lemma_scalar(p, norm(q));
    lemma_scalar(d, norm(q));
    let scaled = product(p, n);
    assert(product(r, conjugate(r)) == product(p, product(n, d)));
    assert(product(n, d) == product(d, n));
    law_product_associative(p, d, n);
    assert(product(p, product(d, n)) == product(product(p, d), n));
    assert(product(p, d) == (Quaternion { x: 0 as real, y: 0 as real, z: 0 as real, w: norm(p) }));
}

proof fn lemma_scalar(q: Quaternion, s: real)
    ensures
        product(q, Quaternion { x: 0 as real, y: 0 as real, z: 0 as real, w: s }) == product(
            Quaternion { x: 0 as real, y: 0 as real, z: 0 as real, w: s },
            q,
        ),
{
    lemma_signs(q.x, s);
    lemma_signs(q.y, s);
    lemma_signs(q.z, s);
    lemma_signs(q.w, s);
}

/// The product of a quaternion, another and the conjugate of the first.
pub open spec fn sandwich(q: Quaternion, v: Quaternion) -> Quaternion {
    product(product(q, v), conjugate(q))
}

/// To rotate by a product is to rotate by the second, then by the first.
pub proof fn law_action_composes(p: Quaternion, q: Quaternion, v: Quaternion)
    ensures
        sandwich(product(p, q), v) == sandwich(p, sandwich(q, v)),
{
    let c = conjugate(q);
    let d = conjugate(p);
    law_conjugate_product(p, q);
    law_product_associative(p, q, v);
    let qv = product(q, v);
    law_product_associative(product(p, qv), c, d);
    law_product_associative(p, qv, c);
}

/// A vector stays a vector under rotation: the scalar part stays 0.
pub proof fn law_action_pure(q: Quaternion, v: Quaternion)
    requires
        v.w == 0 as real,
    ensures
        sandwich(q, v).w == 0 as real,
{
    let s = sandwich(q, v);
    law_conjugate_product(product(q, v), conjugate(q));
    law_conjugate_product(q, v);
    let minus = Quaternion { x: -v.x, y: -v.y, z: -v.z, w: 0 as real };
    assert(conjugate(v) == minus);
    assert(conjugate(conjugate(q)) == q);
    // The conjugate of the sandwich is the sandwich of the conjugate, which
    // is the negative of the sandwich.
    law_product_associative(q, minus, conjugate(q));
    lemma_negative(q, v);
    let qv = product(q, v);
    lemma_negative_left(qv, conjugate(q));
    assert(conjugate(s) == product(q, product(minus, conjugate(q))));
    assert(product(q, minus) == negated(qv));
    assert(conjugate(s) == negated(s));
}

pub open spec fn negated(q: Quaternion) -> Quaternion {
    Quaternion { x: -q.x, y: -q.y, z: -q.z, w: -q.w }
}

proof fn lemma_negative(p: Quaternion, q: Quaternion)
    ensures
        product(p, negated(q)) == negated(product(p, q)),
{
    lemma_signs(p.x, q.x);
    lemma_signs(p.x, q.y);
    lemma_signs(p.x, q.z);
    lemma_signs(p.x, q.w);
    lemma_signs(p.y, q.x);
    lemma_signs(p.y, q.y);
    lemma_signs(p.y, q.z);
    lemma_signs(p.y, q.w);
    lemma_signs(p.z, q.x);
    lemma_signs(p.z, q.y);
    lemma_signs(p.z, q.z);
    lemma_signs(p.z, q.w);
    lemma_signs(p.w, q.x);
    lemma_signs(p.w, q.y);
    lemma_signs(p.w, q.z);
    lemma_signs(p.w, q.w);
}

proof fn lemma_negative_left(p: Quaternion, q: Quaternion)
    ensures
        product(negated(p), q) == negated(product(p, q)),
{
    lemma_signs(p.x, q.x);
    lemma_signs(p.x, q.y);
    lemma_signs(p.x, q.z);
    lemma_signs(p.x, q.w);
    lemma_signs(p.y, q.x);
    lemma_signs(p.y, q.y);
    lemma_signs(p.y, q.z);
    lemma_signs(p.y, q.w);
    lemma_signs(p.z, q.x);
    lemma_signs(p.z, q.y);
    lemma_signs(p.z, q.z);
    lemma_signs(p.z, q.w);
    lemma_signs(p.w, q.x);
    lemma_signs(p.w, q.y);
    lemma_signs(p.w, q.z);
    lemma_signs(p.w, q.w);
}

/// In exact arithmetic the action on a vector is the vector part of the
/// sandwich.
pub proof fn law_exact_action<T, O: Arithmetic<T>>(
    ops: &O,
    zero: T,
    q: Seq<T>,
    v: Seq<T>,
    r: Seq<T>,
    value: spec_fn(T) -> real,
)
    requires
        crate::scalar::is_exact(ops, value),
        value(zero) == 0 as real,
        q.len() == 4,
        v.len() == 3,
        crate::rotation::is_action(ops, zero, q, v, r),
    ensures
        ({
            let s = sandwich(quaternion(value, q), quaternion(value, v.push(zero)));
            value(r[0]) == s.x && value(r[1]) == s.y && value(r[2]) == s.z && s.w == 0 as real
        }),
{
    let (left, conj, all) = choose|left: Seq<T>, conj: Seq<T>, all: Seq<T>|
        {
            &&& #[trigger] crate::rotation::is_product(ops, q, v.push(zero), left)
            &&& #[trigger] crate::rotation::is_conjugate(ops, q, conj)
            &&& #[trigger] crate::rotation::is_product(ops, left, conj, all)
            &&& r == all.take(3)
        };
    law_exact_product(ops, q, v.push(zero), left, value);
    law_exact_product(ops, left, conj, all, value);
    assert(quaternion(value, conj) == conjugate(quaternion(value, q)));
    law_action_pure(quaternion(value, q), quaternion(value, v.push(zero)));
}

/// The inner product of two rows of three.
pub open spec fn inner<T>(value: spec_fn(T) -> real, a: Seq<T>, b: Seq<T>) -> real {
    value(a[0]) * value(b[0]) + value(a[1]) * value(b[1]) + value(a[2]) * value(b[2])
}

/// The rows have length 1 and stand at right angles.
pub open spec fn is_rotation<T>(value: spec_fn(T) -> real, linear: Seq<Seq<T>>) -> bool {
    forall|r: int, c: int|
        0 <= r < 3 && 0 <= c < 3 ==> inner(value, #[trigger] linear[r], #[trigger] linear[c])
            == if r == c {
            1 as real
        } else {
            0 as real
        }
}

/// An entry of the product of two matrices.
pub open spec fn composed<T>(
    value: spec_fn(T) -> real,
    a: Seq<Seq<T>>,
    b: Seq<Seq<T>>,
    r: int,
    c: int,
) -> real {
    value(a[r][0]) * value(b[0][c]) + value(a[r][1]) * value(b[1][c]) + value(a[r][2]) * value(
        b[2][c],
    ) + value(a[r][3]) * value(b[3][c])
}

pub proof fn lemma_three_terms<T>(value: spec_fn(T) -> real, terms: Seq<SignedProduct<T>>)
    requires
        terms.len() == 3,
    ensures
        exact_signed_sum(value, terms) == value(terms[0].left) * value(terms[0].right) + signed(
            value,
            terms[1],
        ) + signed(value, terms[2]),
{
    let two = terms.drop_last();
    let first = two.drop_last();
    assert(exact_signed_sum(value, first) == value(terms[0].left) * value(terms[0].right));
    assert(exact_signed_sum(value, two) == exact_signed_sum(value, first) + signed(value, terms[1]));
}

/// A row applied to the turned vector, summed over the columns and over the
/// rows.
proof fn lemma_turned(a: real, b: real, c: real, l: Seq<Seq<real>>, t: Seq<real>)
    ensures
        a * -(l[0][0] * t[0] + l[1][0] * t[1] + l[2][0] * t[2]) + b * -(l[0][1] * t[0] + l[1][1]
            * t[1] + l[2][1] * t[2]) + c * -(l[0][2] * t[0] + l[1][2] * t[1] + l[2][2] * t[2]) == -((
        a * l[0][0] + b * l[0][1] + c * l[0][2]) * t[0] + (a * l[1][0] + b * l[1][1] + c * l[1][2])
            * t[1] + (a * l[2][0] + b * l[2][1] + c * l[2][2]) * t[2]),
{
    lemma_minus_three(a, l[0][0], t[0], l[1][0], t[1], l[2][0], t[2]);
    lemma_minus_three(b, l[0][1], t[0], l[1][1], t[1], l[2][1], t[2]);
    lemma_minus_three(c, l[0][2], t[0], l[1][2], t[1], l[2][2], t[2]);
    lemma_times_three(a, l[0][0], b, l[0][1], c, l[0][2], t[0]);
    lemma_times_three(a, l[1][0], b, l[1][1], c, l[1][2], t[1]);
    lemma_times_three(a, l[2][0], b, l[2][1], c, l[2][2], t[2]);
}

proof fn lemma_minus_three(a: real, l: real, s: real, m: real, t: real, n: real, u: real)
    ensures
        a * -(l * s + m * t + n * u) == -((a * l) * s + (a * m) * t + (a * n) * u),
{
    let x = l * s;
    let y = m * t;
    let z = n * u;
    assert(a * -(x + y + z) == -(a * x) - a * y - a * z) by (nonlinear_arith);
    assert(a * x == (a * l) * s) by (nonlinear_arith)
        requires
            x == l * s,
    ;
    assert(a * y == (a * m) * t) by (nonlinear_arith)
        requires
            y == m * t,
    ;
    assert(a * z == (a * n) * u) by (nonlinear_arith)
        requires
            z == n * u,
    ;
}

proof fn lemma_times_three(a: real, l: real, b: real, m: real, c: real, n: real, t: real)
    ensures
        (a * l + b * m + c * n) * t == (a * l) * t + (b * m) * t + (c * n) * t,
{
    let x = a * l;
    let y = b * m;
    let z = c * n;
    assert((x + y + z) * t == x * t + y * t + z * t) by (nonlinear_arith);
}

/// In exact arithmetic a rigid transform times its inverse is the identity.
pub proof fn law_rigid_inverse<T, O: Arithmetic<T>>(
    ops: &O,
    h: Seq<Seq<T>>,
    zero: T,
    one: T,
    inverse: Seq<Seq<T>>,
    value: spec_fn(T) -> real,
    r: int,
    c: int,
)
    requires
        crate::scalar::is_exact(ops, value),
        value(zero) == 0 as real,
        value(one) == 1 as real,
        h.len() == 4,
        h[0].len() == 4,
        h[1].len() == 4,
        h[2].len() == 4,
        h[3] == seq![zero, zero, zero, one],
        is_rotation(value, crate::rotation::linear_part(h)),
        crate::rotation::is_rigid_inverse(ops, h, zero, one, inverse),
        0 <= r < 4,
        0 <= c < 4,
    ensures
        composed(value, h, inverse, r, c) == if r == c {
            1 as real
        } else {
            0 as real
        },
{
    let linear = crate::rotation::linear_part(h);
    let t = crate::rotation::translation_part(h);
    let u = crate::rotation::translation_part(inverse);
    assert(inverse[3] == seq![zero, zero, zero, one]);
    if r == 3 {
        assert(composed(value, h, inverse, r, c) == value(inverse[3][c]));
    } else if c < 3 {
        assert(inverse[0][c] == linear[c][0]);
        assert(inverse[1][c] == linear[c][1]);
        assert(inverse[2][c] == linear[c][2]);
        assert(inverse[3][c] == zero);
        assert(linear[r] =~= h[r].take(3));
        assert(inner(value, linear[r], linear[c]) == if r == c {
            1 as real
        } else {
            0 as real
        });
    } else {
        lemma_inverse_coordinate(ops, linear, t, 0, u[0], value);
        lemma_inverse_coordinate(ops, linear, t, 1, u[1], value);
        lemma_inverse_coordinate(ops, linear, t, 2, u[2], value);
        assert(linear[r] =~= h[r].take(3));
        let l = Seq::new(3, |i: int| Seq::new(3, |j: int| value(linear[i][j])));
        let s = Seq::new(3, |i: int| value(t[i]));
        lemma_turned(value(linear[r][0]), value(linear[r][1]), value(linear[r][2]), l, s);
        assert(inner(value, linear[r], linear[0]) == if r == 0 {
            1 as real
        } else {
            0 as real
        });
        assert(inner(value, linear[r], linear[1]) == if r == 1 {
            1 as real
        } else {
            0 as real
        });
        assert(inner(value, linear[r], linear[2]) == if r == 2 {
            1 as real
        } else {
            0 as real
        });
        assert(h[r][3] == t[r]);
        assert(inverse[3][3] == one);
        let x = value(linear[r][0]);
        let y = value(linear[r][1]);
        let z = value(linear[r][2]);
        assert(composed(value, h, inverse, r, c) == x * value(u[0]) + y * value(u[1]) + z * value(
            u[2],
        ) + value(t[r]));
        assert(value(u[0]) == -(l[0][0] * s[0] + l[1][0] * s[1] + l[2][0] * s[2]));
        assert(value(u[1]) == -(l[0][1] * s[0] + l[1][1] * s[1] + l[2][1] * s[2]));
        assert(value(u[2]) == -(l[0][2] * s[0] + l[1][2] * s[1] + l[2][2] * s[2]));
        let d = x * l[0][0] + y * l[0][1] + z * l[0][2];
        let e = x * l[1][0] + y * l[1][1] + z * l[1][2];
        let f = x * l[2][0] + y * l[2][1] + z * l[2][2];
        assert(d == inner(value, linear[r], linear[0]));
        assert(e == inner(value, linear[r], linear[1]));
        assert(f == inner(value, linear[r], linear[2]));
        lemma_pick(d, e, f, s, r);
    }
}

proof fn lemma_pick(d: real, e: real, f: real, s: Seq<real>, r: int)
    requires
        0 <= r < 3,
        d == if r == 0 { 1 as real } else { 0 as real },
        e == if r == 1 { 1 as real } else { 0 as real },
        f == if r == 2 { 1 as real } else { 0 as real },
    ensures
        d * s[0] + e * s[1] + f * s[2] == s[r],
{
    let x = s[0];
    let y = s[1];
    let z = s[2];
    assert(d * x == if r == 0 { x } else { 0 as real }) by (nonlinear_arith)
        requires
            d == if r == 0 { 1 as real } else { 0 as real },
    ;
    assert(e * y == if r == 1 { y } else { 0 as real }) by (nonlinear_arith)
        requires
            e == if r == 1 { 1 as real } else { 0 as real },
    ;
    assert(f * z == if r == 2 { z } else { 0 as real }) by (nonlinear_arith)
        requires
            f == if r == 2 { 1 as real } else { 0 as real },
    ;
}

/// The translation of an inverse, in exact arithmetic.
pub proof fn lemma_inverse_coordinate<T, O: Arithmetic<T>>(
    ops: &O,
    linear: Seq<Seq<T>>,
    t: Seq<T>,
    r: int,
    u: T,
    value: spec_fn(T) -> real,
)
    requires
        crate::scalar::is_exact(ops, value),
        0 <= r < 3,
        crate::rotation::is_inverse_translation(ops, linear, t, r, u),
    ensures
        value(u) == -(value(linear[0][r]) * value(t[0]) + value(linear[1][r]) * value(t[1]) + value(
            linear[2][r],
        ) * value(t[2])),
{
    let terms = crate::rotation::transposed_terms(linear, t, r);
    let v = choose|v: T| #[trigger]
        crate::scalar::negative_of(ops, v, u) && crate::rotation::is_signed_sum(ops, terms, v);
    law_exact_signed_sum(ops, terms, v, value);
    lemma_three_terms(value, terms);
}

/// In exact arithmetic a turn by nothing is the identity, whatever the axis.
pub proof fn law_no_turn<T, O: Arithmetic<T>>(
    ops: &O,
    k: Seq<T>,
    cosine: T,
    sine: T,
    zero: T,
    one: T,
    m: Seq<Seq<T>>,
    value: spec_fn(T) -> real,
    i: int,
    j: int,
)
    requires
        crate::scalar::is_exact(ops, value),
        value(zero) == 0 as real,
        value(one) == 1 as real,
        value(cosine) == 1 as real,
        value(sine) == 0 as real,
        crate::rotation::is_turn(ops, k, cosine, sine, zero, one, m),
        0 <= i < 3,
        0 <= j < 3,
    ensures
        value(m[i][j]) == if i == j {
            1 as real
        } else {
            0 as real
        },
{
    let (n, rest) = choose|n: Seq<T>, rest: T|
        {
            &&& n.len() == 3
            &&& crate::scalar::negative_of(ops, k[0], #[trigger] n[0])
            &&& crate::scalar::negative_of(ops, k[1], n[1])
            &&& crate::scalar::negative_of(ops, k[2], n[2])
            &&& #[trigger] crate::scalar::difference_of(ops, one, cosine, rest)
            &&& forall|i: int, j: int|
                0 <= i < 3 && 0 <= j < 3 ==> crate::rotation::is_turn_entry(
                    ops,
                    cosine,
                    sine,
                    rest,
                    if i == j {
                        one
                    } else {
                        zero
                    },
                    crate::rotation::cross_matrix(k, n, zero)[i][j],
                    k[i],
                    k[j],
                    #[trigger] m[i][j],
                )
        };
    assert(value(rest) == 0 as real);
    let r = m[i][j];
    let eye = if i == j {
        one
    } else {
        zero
    };
    let cross = crate::rotation::cross_matrix(k, n, zero)[i][j];
    let (p, q, o, w, u) = choose|p: T, q: T, o: T, w: T, u: T|
        {
            &&& #[trigger] crate::scalar::product_of(ops, eye, cosine, p)
            &&& #[trigger] crate::scalar::product_of(ops, cross, sine, q)
            &&& #[trigger] crate::scalar::product_of(ops, k[i], k[j], o)
            &&& #[trigger] crate::scalar::product_of(ops, o, rest, w)
            &&& #[trigger] crate::scalar::sum_of(ops, p, q, u)
            &&& crate::scalar::sum_of(ops, u, w, r)
        };
    assert(value(p) == value(eye) * value(cosine));
    assert(value(q) == value(cross) * value(sine));
    assert(value(w) == value(o) * value(rest));
}

} // verus!
