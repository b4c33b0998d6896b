//! In exact arithmetic registrations and cleaned poses are proper rotations.
use vstd::prelude::*;

use crate::models::motions::{Shift, Turn};
use crate::registration::proper::{FactorOps, ProperSteps};
use crate::registration::{RegistrationOps, Rigid, Steps};
use crate::scalar::Arithmetic;

verus! {

pub open spec fn cross(a: Shift, b: Shift) -> Shift {
    Shift { x: a.y * b.z - a.z * b.y, y: a.z * b.x - a.x * b.z, z: a.x * b.y - a.y * b.x }
}

/// The determinant of a linear map.
pub open spec fn determinant(t: Turn) -> real {
    crate::models::motions::dot(t.x, cross(t.y, t.z))
}

/// An orthogonal map that keeps the handedness.
pub open spec fn is_proper_turn(t: Turn) -> bool {
    crate::models::motions::is_orthogonal(t) && determinant(t) == 1 as real
}

spec fn cofactors(b: Turn) -> Turn {
    Turn { x: cross(b.y, b.z), y: cross(b.z, b.x), z: cross(b.x, b.y) }
}

proof fn lemma_swap(a: real, b: real, c: real, d: real)
    ensures
        (a * b) * (c * d) == (a * c) * (b * d),
{
    assert((a * b) * (c * d) == (a * c) * (b * d)) by (nonlinear_arith);
}

proof fn lemma_differences(a: real, b: real, c: real, d: real)
    ensures
        (a - b) * (c - d) == a * c - a * d - b * c + b * d,
{
    assert((a - b) * (c - d) == a * c - a * d - b * c + b * d) by (nonlinear_arith);
}

/// One coordinate of the cross product of two combinations of three vectors.
proof fn lemma_combined(x: Shift, y: Shift, p: Shift, q: Shift)
    ensures
        crate::models::motions::dot(x, p) * crate::models::motions::dot(y, q)
            - crate::models::motions::dot(x, q) * crate::models::motions::dot(y, p)
            == crate::models::motions::dot(cross(x, y), cross(p, q)),
{
    crate::models::turn_laws::lemma_six(
        x.x * p.x,
        x.y * p.y,
        x.z * p.z,
        y.x * q.x,
        y.y * q.y,
        y.z * q.z,
    );
    crate::models::turn_laws::lemma_six(
        x.x * q.x,
        x.y * q.y,
        x.z * q.z,
        y.x * p.x,
        y.y * p.y,
        y.z * p.z,
    );
    lemma_differences(x.y * y.z, x.z * y.y, p.y * q.z, p.z * q.y);
    lemma_differences(x.z * y.x, x.x * y.z, p.z * q.x, p.x * q.z);
    lemma_differences(x.x * y.y, x.y * y.x, p.x * q.y, p.y * q.x);
    lemma_matched(x.x, p.x, q.x, y.x, p.x, q.x);
    lemma_matched(x.x, p.x, q.x, y.y, p.y, q.y);
    lemma_matched(x.x, p.x, q.x, y.z, p.z, q.z);
    lemma_matched(x.y, p.y, q.y, y.x, p.x, q.x);
    lemma_matched(x.y, p.y, q.y, y.y, p.y, q.y);
    lemma_matched(x.y, p.y, q.y, y.z, p.z, q.z);
    lemma_matched(x.z, p.z, q.z, y.x, p.x, q.x);
    lemma_matched(x.z, p.z, q.z, y.y, p.y, q.y);
    lemma_matched(x.z, p.z, q.z, y.z, p.z, q.z);
}

proof fn lemma_matched(x: real, p: real, q: real, y: real, r: real, s: real)
    ensures
        (x * p) * (y * s) == (x * y) * (p * s),
        (x * q) * (y * r) == (x * y) * (r * q),
        (x * y) * (p * s) == (x * y) * (s * p),
{
    lemma_swap(x, p, y, s);
    lemma_swap(x, q, y, r);
    assert(q * r == r * q && p * s == s * p) by (nonlinear_arith);
}

proof fn lemma_cross_rows(x: Shift, y: Shift, b: Turn)
    ensures
        cross(
            crate::models::motions::row_times(x, b),
            crate::models::motions::row_times(y, b),
        ) == crate::models::motions::row_times(cross(x, y), cofactors(b)),
{
    let c = crate::models::motions::transposed(b);
    lemma_combined(x, y, c.y, c.z);
    lemma_combined(x, y, c.z, c.x);
    lemma_combined(x, y, c.x, c.y);
}

/// The orders of three factors.
proof fn lemma_orders(a: real, b: real, c: real)
    ensures
        a * (c * b) == a * (b * c),
        b * (a * c) == a * (b * c),
        b * (c * a) == a * (b * c),
        c * (a * b) == a * (b * c),
        c * (b * a) == a * (b * c),
{
    assert(b * c == c * b && a * c == c * a && a * b == b * a) by (nonlinear_arith);
    assert(b * (a * c) == a * (b * c)) by (nonlinear_arith);
    assert(c * (a * b) == a * (b * c)) by (nonlinear_arith);
}

proof fn lemma_over(s: real, a: real, b: real)
    ensures
        s * (a - b) == s * a - s * b,
{
    assert(s * (a - b) == s * a - s * b) by (nonlinear_arith);
}

/// The factors of a triple product can be cycled.
pub proof fn lemma_triple(a: Shift, b: Shift, c: Shift)
    ensures
        crate::models::motions::dot(b, cross(c, a)) == crate::models::motions::dot(a, cross(b, c)),
        crate::models::motions::dot(c, cross(a, b)) == crate::models::motions::dot(a, cross(b, c)),
{
    lemma_over(a.x, b.y * c.z, b.z * c.y);
    lemma_over(a.y, b.z * c.x, b.x * c.z);
    lemma_over(a.z, b.x * c.y, b.y * c.x);
    lemma_over(b.x, c.y * a.z, c.z * a.y);
    lemma_over(b.y, c.z * a.x, c.x * a.z);
    lemma_over(b.z, c.x * a.y, c.y * a.x);
    lemma_over(c.x, a.y * b.z, a.z * b.y);
    lemma_over(c.y, a.z * b.x, a.x * b.z);
    lemma_over(c.z, a.x * b.y, a.y * b.x);
    lemma_orders(a.x, b.y, c.z);
    lemma_orders(a.x, b.z, c.y);
    lemma_orders(a.y, b.z, c.x);
    lemma_orders(a.y, b.x, c.z);
    lemma_orders(a.z, b.x, c.y);
    lemma_orders(a.z, b.y, c.x);
}

proof fn lemma_flat(a: Shift, b: Shift)
    ensures
        crate::models::motions::dot(a, cross(a, b)) == 0 as real,
        crate::models::motions::dot(a, cross(b, a)) == 0 as real,
{
    lemma_over(a.x, a.y * b.z, a.z * b.y);
    lemma_over(a.y, a.z * b.x, a.x * b.z);
    lemma_over(a.z, a.x * b.y, a.y * b.x);
    lemma_over(a.x, b.y * a.z, b.z * a.y);
    lemma_over(a.y, b.z * a.x, b.x * a.z);
    lemma_over(a.z, b.x * a.y, b.y * a.x);
    lemma_orders(a.x, a.y, b.z);
    lemma_orders(a.x, a.z, b.y);
    lemma_orders(a.y, a.z, b.x);
}

/// The determinant of a product is the product of the determinants.
pub proof fn law_determinant_product(a: Turn, b: Turn)
    ensures
        determinant(crate::models::motions::turns(a, b)) == determinant(a) * determinant(b),
{
    let d = determinant(b);
    let c = cofactors(b);
    let u = a.x;
    let v = cross(a.y, a.z);
    lemma_cross_rows(a.y, a.z, b);
    lemma_triple(b.x, b.y, b.z);
    lemma_flat(b.x, b.y);
    lemma_flat(b.x, b.z);
    lemma_flat(b.y, b.x);
    lemma_flat(b.y, b.z);
    lemma_flat(b.z, b.x);
    lemma_flat(b.z, b.y);
    crate::models::turn_laws::lemma_dot_sums(
        crate::models::turn_laws::scaled(u.x, b.x),
        crate::models::turn_laws::scaled(u.y, b.y),
        crate::models::turn_laws::scaled(u.z, b.z),
        crate::models::turn_laws::scaled(v.x, c.x),
        crate::models::turn_laws::scaled(v.y, c.y),
        crate::models::turn_laws::scaled(v.z, c.z),
    );
    crate::models::turn_laws::lemma_dot_scaled(u.x, b.x, v.x, c.x);
    crate::models::turn_laws::lemma_dot_scaled(u.x, b.x, v.y, c.y);
    crate::models::turn_laws::lemma_dot_scaled(u.x, b.x, v.z, c.z);
    crate::models::turn_laws::lemma_dot_scaled(u.y, b.y, v.x, c.x);
    crate::models::turn_laws::lemma_dot_scaled(u.y, b.y, v.y, c.y);
    crate::models::turn_laws::lemma_dot_scaled(u.y, b.y, v.z, c.z);
    crate::models::turn_laws::lemma_dot_scaled(u.z, b.z, v.x, c.x);
    crate::models::turn_laws::lemma_dot_scaled(u.z, b.z, v.y, c.y);
    crate::models::turn_laws::lemma_dot_scaled(u.z, b.z, v.z, c.z);
    lemma_nothing(u.x * v.y);
    lemma_nothing(u.x * v.z);
    lemma_nothing(u.y * v.x);
    lemma_nothing(u.y * v.z);
    lemma_nothing(u.z * v.x);
    lemma_nothing(u.z * v.y);
    let (p, q, r) = (u.x * v.x, u.y * v.y, u.z * v.z);
    assert((p + q + r) * d == p * d + q * d + r * d) by (nonlinear_arith);
    lemma_row_sum(u, b);
    lemma_row_sum(v, c);
}

proof fn lemma_nothing(a: real)
    ensures
        a * (0 as real) == 0 as real,
{
}

proof fn lemma_row_sum(u: Shift, b: Turn)
    ensures
        crate::models::motions::row_times(u, b) == crate::models::motions::plus(
            crate::models::motions::plus(
                crate::models::turn_laws::scaled(u.x, b.x),
                crate::models::turn_laws::scaled(u.y, b.y),
            ),
            crate::models::turn_laws::scaled(u.z, b.z),
        ),
{
}

pub proof fn lemma_transposed_determinant(t: Turn)
    ensures
        determinant(crate::models::motions::transposed(t)) == determinant(t),
{
    let (a, b, c) = (t.x, t.y, t.z);
    lemma_over(a.x, b.y * c.z, b.z * c.y);
    lemma_over(a.y, b.z * c.x, b.x * c.z);
    lemma_over(a.z, b.x * c.y, b.y * c.x);
    lemma_over(a.x, b.y * c.z, c.y * b.z);
    lemma_over(b.x, c.y * a.z, a.y * c.z);
    lemma_over(c.x, a.y * b.z, b.y * a.z);
    lemma_orders(a.x, b.y, c.z);
    lemma_orders(a.x, b.z, c.y);
    lemma_orders(a.y, b.z, c.x);
    lemma_orders(a.y, b.x, c.z);
    lemma_orders(a.z, b.x, c.y);
    lemma_orders(a.z, b.y, c.x);
}

/// The identity with `s` as its last entry.
pub open spec fn signed_straight(s: real) -> Turn {
    let e = crate::models::motions::straight();
    Turn { x: e.x, y: e.y, z: Shift { x: 0 as real, y: 0 as real, z: s } }
}

pub proof fn lemma_signed_determinant(s: real)
    ensures
        determinant(signed_straight(s)) == s,
{
    let (e, o) = (1 as real, 0 as real);
    assert(e * s == s && e * o == o && o * e == o && o * o == o && o * s == o) by (nonlinear_arith)
        requires
            e == 1 as real,
            o == 0 as real,
    ;
    let t = signed_straight(s);
    assert(cross(t.y, t.z) == Shift { x: s, y: o, z: o });
}

proof fn lemma_signed_orthogonal(s: real)
    requires
        s * s == 1 as real,
    ensures
        crate::models::motions::is_orthogonal(signed_straight(s)),
{
    let (e, o) = (1 as real, 0 as real);
    assert(e * e == e && e * s == s && s * o == o && e * o == o && o * e == o && o * o == o && o * s
        == o) by (nonlinear_arith)
        requires
            e == 1 as real,
            o == 0 as real,
    ;
    let t = signed_straight(s);
    let u = crate::models::motions::transposed(t);
    let p = crate::models::motions::straight();
    assert(u == t);
    let q = crate::models::motions::turns(t, t);
    assert(q.x == p.x && q.y == p.y && q.z == p.z);
}

/// The determinant of an orthogonal map is 1 or -1.
pub proof fn law_orthogonal_determinant(t: Turn)
    requires
        crate::models::motions::is_orthogonal(t),
    ensures
        determinant(t) == 1 as real || determinant(t) == -(1 as real),
{
    let d = determinant(t);
    law_determinant_product(t, crate::models::motions::transposed(t));
    lemma_transposed_determinant(t);
    let e = 1 as real;
    lemma_signed_determinant(e);
    lemma_differences(d, e, d, -e);
    assert(d - e == 0 as real || d - -e == 0 as real) by (nonlinear_arith)
        requires
            (d - e) * (d - -e) == 0 as real,
    ;
}

/// The sign of a number is that of what it stands for, and the factors of a
/// decomposition are orthogonal.
pub open spec fn factors_exactly<T, O: FactorOps<T>>(ops: &O, value: spec_fn(T) -> real) -> bool {
    &&& forall|a: T, r: T| #[trigger]
        call_ensures(O::sign, (ops, a), r) ==> value(r) == if value(a) < 0 as real {
            -(1 as real)
        } else {
            1 as real
        }
    &&& forall|m: [[T; 3]; 3], f: ([[T; 3]; 3], [[T; 3]; 3])| #[trigger]
        call_ensures(O::factors, (ops, &m), f) ==> {
            &&& crate::models::motions::is_orthogonal(
                crate::models::turn_laws::turn_of(value, crate::rotation::rows3(f.0)),
            )
            &&& crate::models::motions::is_orthogonal(
                crate::models::turn_laws::turn_of(value, crate::rotation::rows3(f.1)),
            )
        }
}

proof fn lemma_minor<T, O: Arithmetic<T>>(
    ops: &O,
    a: T,
    b: T,
    c: T,
    d: T,
    r: T,
    value: spec_fn(T) -> real,
)
    requires
        crate::scalar::is_exact(ops, value),
        crate::rotation::is_minor(ops, a, b, c, d, r),
    ensures
        value(r) == value(a) * value(b) - value(c) * value(d),
{
    let terms = seq![crate::rotation::added(a, b), crate::rotation::taken(c, d)];
    crate::rotation_laws::law_exact_signed_sum(ops, terms, r, value);
    let first = terms.drop_last();
    assert(first.len() == 1 && first[0] == terms[0]);
    assert(crate::rotation_laws::exact_signed_sum(value, first) == value(a) * value(b));
}

/// In exact arithmetic the determinant of a matrix is that of what it stands
/// for.
pub proof fn law_exact_determinant<T, O: Arithmetic<T>>(
    ops: &O,
    m: Seq<Seq<T>>,
    r: T,
    value: spec_fn(T) -> real,
)
    requires
        crate::scalar::is_exact(ops, value),
        crate::registration::proper::is_determinant(ops, m, r),
    ensures
        value(r) == determinant(crate::models::turn_laws::turn_of(value, m)),
{
    let (p, q, s) = choose|p: T, q: T, s: T| #[trigger]
        crate::registration::proper::are_minors(ops, m, p, q, s)
            && crate::rotation::is_signed_sum(
            ops,
            crate::registration::proper::determinant_terms(m, p, q, s),
            r,
        );
    let terms = crate::registration::proper::determinant_terms(m, p, q, s);
    lemma_minor(ops, m[1][1], m[2][2], m[2][1], m[1][2], p, value);
    lemma_minor(ops, m[1][0], m[2][2], m[2][0], m[1][2], q, value);
    lemma_minor(ops, m[1][0], m[2][1], m[2][0], m[1][1], s, value);
    crate::rotation_laws::law_exact_signed_sum(ops, terms, r, value);
    crate::rotation_laws::lemma_three_terms(value, terms);
    let t = crate::models::turn_laws::turn_of(value, m);
    let (a, b, c) = (t.x, t.y, t.z);
    lemma_over(a.x, b.y * c.z, b.z * c.y);
    lemma_over(a.x, b.y * c.z, c.y * b.z);
    lemma_over(a.y, b.z * c.x, b.x * c.z);
    lemma_over(a.y, b.x * c.z, c.x * b.z);
    lemma_over(a.z, b.x * c.y, b.y * c.x);
    lemma_over(a.z, b.x * c.y, c.x * b.y);
    lemma_orders(a.x, b.z, c.y);
    lemma_orders(a.y, b.z, c.x);
    lemma_orders(a.z, b.y, c.x);
}

/// The product of two maps, with the third axis turned over between them where
/// that keeps the handedness.
pub open spec fn signed_product(a: Turn, b: Turn) -> Turn {
    let sign = if determinant(crate::models::motions::turns(a, b)) < 0 as real {
        -(1 as real)
    } else {
        1 as real
    };
    crate::models::motions::turns(crate::models::motions::turns(a, signed_straight(sign)), b)
}

/// In exact arithmetic the sign is put right between the two matrices.
pub proof fn law_exact_proper<T, O: FactorOps<T>>(
    ops: &O,
    zero: T,
    one: T,
    a: Seq<Seq<T>>,
    b: Seq<Seq<T>>,
    r: Seq<Seq<T>>,
    value: spec_fn(T) -> real,
)
    requires
        crate::scalar::is_exact(ops, value),
        factors_exactly(ops, value),
        value(zero) == 0 as real,
        value(one) == 1 as real,
        crate::registration::proper::is_proper(ops, zero, one, a, b, r),
    ensures
        crate::models::turn_laws::turn_of(value, r) == signed_product(
            crate::models::turn_laws::turn_of(value, a),
            crate::models::turn_laws::turn_of(value, b),
        ),
{
    let s = choose|s: ProperSteps<T>| #[trigger]
        crate::registration::proper::are_proper_steps(ops, zero, one, a, b, s, r);
    let joined = crate::rotation::rows3(s.joined);
    let signed = crate::rotation::rows3(s.signed);
    let middle = crate::registration::proper::signed_identity(zero, one, s.sign);
    crate::models::turn_laws::law_exact_product_turn(ops, a, b, joined, value);
    crate::models::turn_laws::law_exact_product_turn(ops, a, middle, signed, value);
    crate::models::turn_laws::law_exact_product_turn(ops, signed, b, r, value);
    law_exact_determinant(ops, joined, s.determinant, value);
    assert(crate::models::turn_laws::turn_of(value, middle) == signed_straight(value(s.sign)));
}

/// In exact arithmetic the product of two orthogonal matrices, with the sign
/// put right between them, is a proper rotation.
pub proof fn law_proper<T, O: FactorOps<T>>(
    ops: &O,
    zero: T,
    one: T,
    a: Seq<Seq<T>>,
    b: Seq<Seq<T>>,
    r: Seq<Seq<T>>,
    value: spec_fn(T) -> real,
)
    requires
        crate::scalar::is_exact(ops, value),
        factors_exactly(ops, value),
        value(zero) == 0 as real,
        value(one) == 1 as real,
        crate::models::motions::is_orthogonal(crate::models::turn_laws::turn_of(value, a)),
        crate::models::motions::is_orthogonal(crate::models::turn_laws::turn_of(value, b)),
        crate::registration::proper::is_proper(ops, zero, one, a, b, r),
    ensures
        is_proper_turn(crate::models::turn_laws::turn_of(value, r)),
{
    law_exact_proper(ops, zero, one, a, b, r, value);
    let t = crate::models::turn_laws::turn_of(value, a);
    let u = crate::models::turn_laws::turn_of(value, b);
    crate::models::motions::lemma_product_orthogonal(t, u);
    law_orthogonal_determinant(crate::models::motions::turns(t, u));
    let e = determinant(crate::models::motions::turns(t, u));
    assert(e * e == 1 as real) by (nonlinear_arith)
        requires
            e == 1 as real || e == -(1 as real),
    ;
    let v = signed_straight(e);
    let w = crate::models::motions::turns(t, v);
    lemma_signed_orthogonal(e);
    lemma_signed_determinant(e);
    crate::models::motions::lemma_product_orthogonal(t, v);
    crate::models::motions::lemma_product_orthogonal(w, u);
    law_determinant_product(t, u);
    law_determinant_product(t, v);
    law_determinant_product(w, u);
    let (x, y) = (determinant(t), determinant(u));
    assert((x * e) * y == (x * y) * e) by (nonlinear_arith);
}

proof fn lemma_transposed_factor<T>(m: [[T; 3]; 3], value: spec_fn(T) -> real)
    requires
        crate::models::motions::is_orthogonal(
            crate::models::turn_laws::turn_of(value, crate::rotation::rows3(m)),
        ),
    ensures
        crate::models::motions::is_orthogonal(
            crate::models::turn_laws::turn_of(
                value,
                crate::rotation::transposed(crate::rotation::rows3(m)),
            ),
        ),
{
    let t = crate::models::turn_laws::turn_of(value, crate::rotation::rows3(m));
    let u = crate::models::motions::transposed(t);
    assert(crate::models::turn_laws::turn_of(
        value,
        crate::rotation::transposed(crate::rotation::rows3(m)),
    ) == u);
    assert(crate::models::motions::transposed(u) == t);
}

/// In exact arithmetic the rotation of a registration is a proper one.
pub proof fn law_registrations_proper<T, O: RegistrationOps<T>>(
    ops: &O,
    zero: T,
    one: T,
    src: Seq<[T; 3]>,
    tgt: Seq<[T; 3]>,
    weights: Seq<T>,
    rigid: Rigid<T>,
    value: spec_fn(T) -> real,
)
    requires
        crate::scalar::is_exact(ops, value),
        factors_exactly(ops, value),
        value(zero) == 0 as real,
        value(one) == 1 as real,
        crate::registration::is_registration(ops, zero, one, src, tgt, weights, rigid),
    ensures
        is_proper_turn(
            crate::models::turn_laws::turn_of(value, crate::rotation::rows3(rigid.rotation)),
        ),
{
    let steps = choose|steps: Steps<T>| #[trigger]
        crate::registration::are_steps(ops, zero, one, src, tgt, weights, steps, rigid);
    let h = steps.covariance;
    let r = crate::rotation::rows3(rigid.rotation);
    let f = choose|f: ([[T; 3]; 3], [[T; 3]; 3])| #[trigger]
        call_ensures(O::factors, (ops, &h), f) && crate::registration::proper::is_proper(
            ops,
            zero,
            one,
            crate::rotation::transposed(crate::rotation::rows3(f.1)),
            crate::rotation::transposed(crate::rotation::rows3(f.0)),
            r,
        );
    lemma_transposed_factor(f.0, value);
    lemma_transposed_factor(f.1, value);
    law_proper(
        ops,
        zero,
        one,
        crate::rotation::transposed(crate::rotation::rows3(f.1)),
        crate::rotation::transposed(crate::rotation::rows3(f.0)),
        r,
        value,
    );
}

/// In exact arithmetic the rotation of a cleaned pose is a proper one.
pub proof fn law_cleaned_poses_proper<T, O: FactorOps<T>>(
    ops: &O,
    zero: T,
    one: T,
    before: Seq<Seq<T>>,
    after: Seq<Seq<T>>,
    value: spec_fn(T) -> real,
)
    requires
        crate::scalar::is_exact(ops, value),
        factors_exactly(ops, value),
        value(zero) == 0 as real,
        value(one) == 1 as real,
        crate::parameters_regressor::fitting::is_sanitized(ops, zero, one, before, after),
    ensures
        is_proper_turn(crate::models::motions::motion_of(value, after).turn),
{
    let (m, clean) = choose|m: [[T; 3]; 3], clean: [[T; 3]; 3]|
        {
            &&& crate::rotation::rows3(m) =~~= crate::rotation::linear_part(before)
            &&& #[trigger] crate::registration::proper::is_nearest_rotation(
                ops,
                zero,
                one,
                m,
                crate::rotation::rows3(clean),
            )
            &&& after =~~= seq![
                crate::rotation::rows3(clean)[0].push(before[0][3]),
                crate::rotation::rows3(clean)[1].push(before[1][3]),
                crate::rotation::rows3(clean)[2].push(before[2][3]),
                before[3],
            ]
        };
    let r = crate::rotation::rows3(clean);
    let f = choose|f: ([[T; 3]; 3], [[T; 3]; 3])| #[trigger]
        call_ensures(O::factors, (ops, &m), f) && crate::registration::proper::is_proper(
            ops,
            zero,
            one,
            crate::rotation::rows3(f.0),
            crate::rotation::rows3(f.1),
            r,
        );
    law_proper(
        ops,
        zero,
        one,
        crate::rotation::rows3(f.0),
        crate::rotation::rows3(f.1),
        r,
        value,
    );
    assert(after[0] == r[0].push(before[0][3]));
    assert(after[1] == r[1].push(before[1][3]));
    assert(after[2] == r[2].push(before[2][3]));
    assert(crate::models::motions::motion_of(value, after).turn
        == crate::models::turn_laws::turn_of(value, r));
}

} // verus!
