//! In exact arithmetic rotation vectors and rest poses turn without stretching.
use vstd::prelude::*;

use crate::kinematics::bone_poses::{BoneSteps, EndpointOps};
use crate::models::motions::{Shift, Turn};
use crate::rotation::{AngleOps, TurnSteps};
use crate::scalar::Arithmetic;

verus! {

pub open spec fn scaled(t: real, v: Shift) -> Shift {
    Shift { x: t * v.x, y: t * v.y, z: t * v.z }
}

/// A row of the rotation about `k` by the angle with cosine `c` and sine `s`:
/// `e` is the row of the identity, `across` that of the cross product with
/// `k`, and `t` the entry of `k`.
spec fn turn_row(c: real, s: real, k: Shift, e: Shift, across: Shift, t: real) -> Shift {
    crate::models::motions::plus(
        crate::models::motions::plus(scaled(c, e), scaled(s, across)),
        scaled(t * (1 as real - c), k),
    )
}

/// The rotation about `k` by the angle with cosine `c` and sine `s`.
pub closed spec fn rodrigues(c: real, s: real, k: Shift) -> Turn {
    let o = 0 as real;
    let e = crate::models::motions::straight();
    Turn {
        x: turn_row(c, s, k, e.x, Shift { x: o, y: -k.z, z: k.y }, k.x),
        y: turn_row(c, s, k, e.y, Shift { x: k.z, y: o, z: -k.x }, k.y),
        z: turn_row(c, s, k, e.z, Shift { x: -k.y, y: k.x, z: o }, k.z),
    }
}

pub proof fn lemma_dot_scaled(t: real, u: Shift, r: real, v: Shift)
    ensures
        crate::models::motions::dot(scaled(t, u), scaled(r, v)) == (t * r)
            * crate::models::motions::dot(u, v),
{
    let (a, b, c) = (u.x, u.y, u.z);
    let (x, y, z) = (v.x, v.y, v.z);
    let q = t * r;
    assert((t * a) * (r * x) == q * (a * x)) by (nonlinear_arith)
        requires
            q == t * r,
    ;
    assert((t * b) * (r * y) == q * (b * y)) by (nonlinear_arith)
        requires
            q == t * r,
    ;
    assert((t * c) * (r * z) == q * (c * z)) by (nonlinear_arith)
        requires
            q == t * r,
    ;
    let (l, m, n) = (a * x, b * y, c * z);
    assert(q * (l + m + n) == q * l + q * m + q * n) by (nonlinear_arith);
}

pub proof fn lemma_dot_sums(a: Shift, b: Shift, c: Shift, x: Shift, y: Shift, z: Shift)
    ensures
        crate::models::motions::dot(
            crate::models::motions::plus(crate::models::motions::plus(a, b), c),
            crate::models::motions::plus(crate::models::motions::plus(x, y), z),
        ) == crate::models::motions::dot(a, x) + crate::models::motions::dot(a, y)
            + crate::models::motions::dot(a, z) + crate::models::motions::dot(b, x)
            + crate::models::motions::dot(b, y) + crate::models::motions::dot(b, z)
            + crate::models::motions::dot(c, x) + crate::models::motions::dot(c, y)
            + crate::models::motions::dot(c, z),
{
    lemma_six(a.x, b.x, c.x, x.x, y.x, z.x);
    lemma_six(a.y, b.y, c.y, x.y, y.y, z.y);
    lemma_six(a.z, b.z, c.z, x.z, y.z, z.z);
}

pub proof fn lemma_six(a: real, b: real, c: real, x: real, y: real, z: real)
    ensures
        (a + b + c) * (x + y + z) == a * x + a * y + a * z + b * x + b * y + b * z + c * x + c * y
            + c * z,
{
    assert((a + b + c) * (x + y + z) == a * x + a * y + a * z + b * x + b * y + b * z + c * x + c
        * y + c * z) by (nonlinear_arith);
}

/// Two rows stand as the rows of the identity do.
proof fn lemma_turn_rows(
    c: real,
    s: real,
    k: Shift,
    e: Shift,
    across: Shift,
    t: real,
    f: Shift,
    over: Shift,
    u: real,
    one: real,
)
    requires
        crate::models::motions::dot(e, f) == one,
        crate::models::motions::dot(e, over) + crate::models::motions::dot(across, f) == 0 as real,
        crate::models::motions::dot(e, k) == t,
        crate::models::motions::dot(k, f) == u,
        crate::models::motions::dot(across, k) == 0 as real,
        crate::models::motions::dot(k, over) == 0 as real,
        crate::models::motions::dot(k, k) == 1 as real,
        crate::models::motions::dot(across, over) == one - t * u,
        c * c + s * s == 1 as real,
    ensures
        crate::models::motions::dot(
            turn_row(c, s, k, e, across, t),
            turn_row(c, s, k, f, over, u),
        ) == one,
{
    let d = 1 as real - c;
    let (p, q) = (t * d, u * d);
    lemma_dot_sums(
        scaled(c, e),
        scaled(s, across),
        scaled(p, k),
        scaled(c, f),
        scaled(s, over),
        scaled(q, k),
    );
    lemma_dot_scaled(c, e, c, f);
    lemma_dot_scaled(c, e, s, over);
    lemma_dot_scaled(c, e, q, k);
    lemma_dot_scaled(s, across, c, f);
    lemma_dot_scaled(s, across, s, over);
    lemma_dot_scaled(s, across, q, k);
    lemma_dot_scaled(p, k, c, f);
    lemma_dot_scaled(p, k, s, over);
    lemma_dot_scaled(p, k, q, k);
    let a = crate::models::motions::dot(e, over);
    let b = crate::models::motions::dot(across, f);
    let m = t * u;
    let o = 0 as real;
    assert((c * s) * a + (s * c) * b == o) by (nonlinear_arith)
        requires
            a + b == o,
            o == 0 as real,
    ;
    assert((s * q) * o == o && (p * s) * o == o) by (nonlinear_arith)
        requires
            o == 0 as real,
    ;
    assert((c * q) * t == (c * d) * m) by (nonlinear_arith)
        requires
            q == u * d,
            m == t * u,
    ;
    assert((p * c) * u == (c * d) * m) by (nonlinear_arith)
        requires
            p == t * d,
            m == t * u,
    ;
    assert((p * q) * (1 as real) == (d * d) * m) by (nonlinear_arith)
        requires
            p == t * d,
            q == u * d,
            m == t * u,
    ;
    let (cc, ss) = (c * c, s * s);
    assert(ss * (one - m) == ss * one - ss * m) by (nonlinear_arith);
    assert(cc * one + ss * one == one) by (nonlinear_arith)
        requires
            cc + ss == 1 as real,
    ;
    assert(c * d == c - cc && d * d == 1 as real - 2 as real * c + cc) by (nonlinear_arith)
        requires
            d == 1 as real - c,
            cc == c * c,
    ;
    let (cd, dd) = (c * d, d * d);
    assert(cd + cd + dd - ss == 0 as real);
    assert(cd * m + cd * m + dd * m - ss * m == o) by (nonlinear_arith)
        requires
            cd + cd + dd - ss == 0 as real,
            o == 0 as real,
    ;
}

proof fn lemma_axis(k: Shift)
    requires
        crate::models::motions::dot(k, k) == 1 as real,
    ensures
        ({
            let o = 0 as real;
            let x = Shift { x: o, y: -k.z, z: k.y };
            let y = Shift { x: k.z, y: o, z: -k.x };
            let z = Shift { x: -k.y, y: k.x, z: o };
            &&& crate::models::motions::dot(x, k) == o && crate::models::motions::dot(k, x) == o
            &&& crate::models::motions::dot(y, k) == o && crate::models::motions::dot(k, y) == o
            &&& crate::models::motions::dot(z, k) == o && crate::models::motions::dot(k, z) == o
            &&& crate::models::motions::dot(x, x) == 1 as real - k.x * k.x
            &&& crate::models::motions::dot(y, y) == 1 as real - k.y * k.y
            &&& crate::models::motions::dot(z, z) == 1 as real - k.z * k.z
            &&& crate::models::motions::dot(x, y) == o - k.x * k.y
            &&& crate::models::motions::dot(y, x) == o - k.y * k.x
            &&& crate::models::motions::dot(x, z) == o - k.x * k.z
            &&& crate::models::motions::dot(z, x) == o - k.z * k.x
            &&& crate::models::motions::dot(y, z) == o - k.y * k.z
            &&& crate::models::motions::dot(z, y) == o - k.z * k.y
        }),
{
    let (a, b, c) = (k.x, k.y, k.z);
    let o = 0 as real;
    assert(o * a == o && o * b == o && o * c == o && a * o == o && b * o == o && c * o == o && o * o
        == o) by (nonlinear_arith)
        requires
            o == 0 as real,
    ;
    assert(o * -a == o && o * -b == o && o * -c == o && -a * o == o && -b * o == o && -c * o == o)
        by (nonlinear_arith)
        requires
            o == 0 as real,
    ;
    assert(-c * b == -(b * c) && b * -c == -(b * c) && c * b == b * c) by (nonlinear_arith);
    assert(-a * c == -(a * c) && c * -a == -(a * c) && c * a == a * c) by (nonlinear_arith);
    assert(-b * a == -(a * b) && a * -b == -(a * b) && b * a == a * b) by (nonlinear_arith);
    assert(-a * b == -(a * b) && b * -a == -(a * b)) by (nonlinear_arith);
    assert(-b * c == -(b * c) && c * -b == -(b * c)) by (nonlinear_arith);
    assert(-c * a == -(a * c) && a * -c == -(a * c)) by (nonlinear_arith);
    assert(-a * -a == a * a && -b * -b == b * b && -c * -c == c * c) by (nonlinear_arith);
    assert(-a * -b == a * b && -b * -a == a * b && -a * -c == a * c && -c * -a == a * c)
        by (nonlinear_arith);
    assert(-b * -c == b * c && -c * -b == b * c) by (nonlinear_arith);
}

proof fn lemma_units(k: Shift)
    ensures
        ({
            let e = crate::models::motions::straight();
            &&& crate::models::motions::dot(e.x, k) == k.x && crate::models::motions::dot(k, e.x)
                == k.x
            &&& crate::models::motions::dot(e.y, k) == k.y && crate::models::motions::dot(k, e.y)
                == k.y
            &&& crate::models::motions::dot(e.z, k) == k.z && crate::models::motions::dot(k, e.z)
                == k.z
        }),
{
    let (p, q, r) = (k.x, k.y, k.z);
    let o = 0 as real;
    let e = 1 as real;
    assert(p * o == o && q * o == o && r * o == o && p * e == p && q * e == q && r * e == r)
        by (nonlinear_arith)
        requires
            o == 0 as real,
            e == 1 as real,
    ;
    assert(o * p == o && o * q == o && o * r == o && e * p == p && e * q == q && e * r == r)
        by (nonlinear_arith)
        requires
            o == 0 as real,
            e == 1 as real,
    ;
}

proof fn lemma_rows_orthogonal(c: real, s: real, k: Shift)
    requires
        crate::models::motions::dot(k, k) == 1 as real,
        c * c + s * s == 1 as real,
    ensures
        ({
            let r = rodrigues(c, s, k);
            crate::models::motions::turns(r, crate::models::motions::transposed(r))
                == crate::models::motions::straight()
        }),
{
    let o = 0 as real;
    let i = 1 as real;
    let e = crate::models::motions::straight();
    let x = Shift { x: o, y: -k.z, z: k.y };
    let y = Shift { x: k.z, y: o, z: -k.x };
    let z = Shift { x: -k.y, y: k.x, z: o };
    lemma_axis(k);
    lemma_units(k);
    lemma_units(x);
    lemma_units(y);
    lemma_units(z);
    lemma_units(e.x);
    lemma_units(e.y);
    lemma_units(e.z);
    lemma_turn_rows(c, s, k, e.x, x, k.x, e.x, x, k.x, i);
    lemma_turn_rows(c, s, k, e.y, y, k.y, e.y, y, k.y, i);
    lemma_turn_rows(c, s, k, e.z, z, k.z, e.z, z, k.z, i);
    lemma_turn_rows(c, s, k, e.x, x, k.x, e.y, y, k.y, o);
    lemma_turn_rows(c, s, k, e.y, y, k.y, e.x, x, k.x, o);
    lemma_turn_rows(c, s, k, e.x, x, k.x, e.z, z, k.z, o);
    lemma_turn_rows(c, s, k, e.z, z, k.z, e.x, x, k.x, o);
    lemma_turn_rows(c, s, k, e.y, y, k.y, e.z, z, k.z, o);
    lemma_turn_rows(c, s, k, e.z, z, k.z, e.y, y, k.y, o);
    let r = rodrigues(c, s, k);
    let t = crate::models::motions::transposed(r);
    assert(crate::models::motions::transposed(t) == r);
}

proof fn lemma_transposed_turn(c: real, s: real, k: Shift)
    ensures
        crate::models::motions::transposed(rodrigues(c, s, k)) == rodrigues(c, -s, k),
{
    let d = 1 as real - c;
    let (x, y, z) = (k.x, k.y, k.z);
    assert((x * d) * y == (y * d) * x) by (nonlinear_arith);
    assert((x * d) * z == (z * d) * x) by (nonlinear_arith);
    assert((y * d) * z == (z * d) * y) by (nonlinear_arith);
    assert(s * x == -s * -x && s * -x == -s * x) by (nonlinear_arith);
    assert(s * y == -s * -y && s * -y == -s * y) by (nonlinear_arith);
    assert(s * z == -s * -z && s * -z == -s * z) by (nonlinear_arith);
    let o = 0 as real;
    assert(s * o == o && -s * o == o) by (nonlinear_arith)
        requires
            o == 0 as real,
    ;
}

/// A rotation about a unit axis is orthogonal.
pub proof fn law_rodrigues_orthogonal(c: real, s: real, k: Shift)
    requires
        crate::models::motions::dot(k, k) == 1 as real,
        c * c + s * s == 1 as real,
    ensures
        crate::models::motions::is_orthogonal(rodrigues(c, s, k)),
{
    lemma_rows_orthogonal(c, s, k);
    assert(c * c + -s * -s == 1 as real) by (nonlinear_arith)
        requires
            c * c + s * s == 1 as real,
    ;
    lemma_rows_orthogonal(c, -s, k);
    lemma_transposed_turn(c, s, k);
    lemma_transposed_turn(c, -s, k);
    assert(-(-s) == s);
}

proof fn lemma_row_applied(
    c: real,
    s: real,
    k: Shift,
    e: Shift,
    across: Shift,
    t: real,
    v: Shift,
)
    ensures
        crate::models::motions::dot(turn_row(c, s, k, e, across, t), v) == c
            * crate::models::motions::dot(e, v) + s * crate::models::motions::dot(across, v) + (t
            * (1 as real - c)) * crate::models::motions::dot(k, v),
{
    let d = t * (1 as real - c);
    let (a, b, x) = (scaled(c, e), scaled(s, across), scaled(d, k));
    let row = crate::models::motions::plus(crate::models::motions::plus(a, b), x);
    crate::models::motions::lemma_dot_swapped(row, v);
    crate::models::motions::lemma_dot_plus(v, crate::models::motions::plus(a, b), x);
    crate::models::motions::lemma_dot_plus(v, a, b);
    crate::models::motions::lemma_dot_swapped(v, a);
    crate::models::motions::lemma_dot_swapped(v, b);
    crate::models::motions::lemma_dot_swapped(v, x);
    lemma_scaled_dot(c, e, v);
    lemma_scaled_dot(s, across, v);
    lemma_scaled_dot(d, k, v);
}

pub proof fn lemma_scaled_dot(t: real, u: Shift, v: Shift)
    ensures
        crate::models::motions::dot(scaled(t, u), v) == t * crate::models::motions::dot(u, v),
{
    let (a, b, c) = (u.x, u.y, u.z);
    let (x, y, z) = (v.x, v.y, v.z);
    assert((t * a) * x == t * (a * x)) by (nonlinear_arith);
    assert((t * b) * y == t * (b * y)) by (nonlinear_arith);
    assert((t * c) * z == t * (c * z)) by (nonlinear_arith);
    let (l, m, n) = (a * x, b * y, c * z);
    assert(t * (l + m + n) == t * l + t * m + t * n) by (nonlinear_arith);
}

/// The vector at right angles to two others.
pub open spec fn crossed(u: Shift, v: Shift) -> Shift {
    Shift {
        x: u.y * v.z - u.z * v.y,
        y: u.z * v.x - u.x * v.z,
        z: u.x * v.y - u.y * v.x,
    }
}

/// What a rotation does to a vector at right angles to its axis.
pub proof fn lemma_rodrigues_applied(c: real, s: real, k: Shift, v: Shift)
    requires
        crate::models::motions::dot(k, v) == 0 as real,
    ensures
        crate::models::motions::applied(rodrigues(c, s, k), v) == crate::models::motions::plus(
            scaled(c, v),
            scaled(s, crossed(k, v)),
        ),
{
    let o = 0 as real;
    let e = crate::models::motions::straight();
    let x = Shift { x: o, y: -k.z, z: k.y };
    let y = Shift { x: k.z, y: o, z: -k.x };
    let z = Shift { x: -k.y, y: k.x, z: o };
    lemma_row_applied(c, s, k, e.x, x, k.x, v);
    lemma_row_applied(c, s, k, e.y, y, k.y, v);
    lemma_row_applied(c, s, k, e.z, z, k.z, v);
    crate::models::motions::lemma_dot_units(v);
    let (p, q, r) = (v.x, v.y, v.z);
    let (l, m, n) = (k.x, k.y, k.z);
    assert(o * p == o && o * q == o && o * r == o) by (nonlinear_arith)
        requires
            o == 0 as real,
    ;
    assert(-n * q == -(n * q) && -l * r == -(l * r) && -m * p == -(m * p)) by (nonlinear_arith);
    let d = 1 as real - c;
    assert((l * d) * o == o && (m * d) * o == o && (n * d) * o == o) by (nonlinear_arith)
        requires
            o == 0 as real,
    ;
    assert(crate::models::motions::dot(x, v) == crossed(k, v).x);
    assert(crate::models::motions::dot(y, v) == crossed(k, v).y);
    assert(crate::models::motions::dot(z, v) == crossed(k, v).z);
}

/// A rotation leaves its axis where it is.
pub proof fn lemma_rodrigues_keeps_axis(c: real, s: real, k: Shift, t: real)
    requires
        crate::models::motions::dot(k, k) == 1 as real,
    ensures
        crate::models::motions::applied(rodrigues(c, s, k), scaled(t, k)) == scaled(t, k),
{
    let o = 0 as real;
    let e = crate::models::motions::straight();
    let v = scaled(t, k);
    let x = Shift { x: o, y: -k.z, z: k.y };
    let y = Shift { x: k.z, y: o, z: -k.x };
    let z = Shift { x: -k.y, y: k.x, z: o };
    lemma_row_applied(c, s, k, e.x, x, k.x, v);
    lemma_row_applied(c, s, k, e.y, y, k.y, v);
    lemma_row_applied(c, s, k, e.z, z, k.z, v);
    crate::models::motions::lemma_dot_units(v);
    crate::models::motions::lemma_dot_swapped(k, v);
    lemma_scaled_dot(t, k, k);
    let (l, m, n) = (k.x, k.y, k.z);
    lemma_cancelled(l, m, n, t);
    lemma_cancelled(m, n, l, t);
    lemma_cancelled(n, l, m, t);
    lemma_gathered(c, s, t, l);
    lemma_gathered(c, s, t, m);
    lemma_gathered(c, s, t, n);
    assert(crate::models::motions::dot(x, v) == o);
    assert(crate::models::motions::dot(y, v) == o);
    assert(crate::models::motions::dot(z, v) == o);
    assert(t * (1 as real) == t) by (nonlinear_arith);
}

proof fn lemma_cancelled(l: real, m: real, n: real, t: real)
    ensures
        (0 as real) * (t * l) == 0 as real,
        -n * (t * m) + m * (t * n) == 0 as real,
        n * (t * m) + -m * (t * n) == 0 as real,
{
    assert((0 as real) * (t * l) == 0 as real) by (nonlinear_arith);
    assert(-n * (t * m) + m * (t * n) == 0 as real) by (nonlinear_arith);
    assert(n * (t * m) + -m * (t * n) == 0 as real) by (nonlinear_arith);
}

proof fn lemma_gathered(c: real, s: real, t: real, l: real)
    ensures
        c * (t * l) + s * (0 as real) + (l * (1 as real - c)) * t == t * l,
{
    assert(c * (t * l) + s * (0 as real) + (l * (1 as real - c)) * t == t * l)
        by (nonlinear_arith);
}

/// The linear map that a matrix stands for.
pub open spec fn turn_of<T>(value: spec_fn(T) -> real, m: Seq<Seq<T>>) -> Turn {
    Turn {
        x: crate::models::motions::row_seen(value, m[0]),
        y: crate::models::motions::row_seen(value, m[1]),
        z: crate::models::motions::row_seen(value, m[2]),
    }
}

/// Angles and lengths are measured exactly: sine and cosine stand on the unit
/// circle, an angle of nothing has cosine 1, a length is the root of the sum of
/// the squares, and no length but zero is replaced by another.
pub open spec fn turns_exactly<T, O: AngleOps<T>>(ops: &O, value: spec_fn(T) -> real) -> bool {
    &&& crate::scalar::divides_exactly(ops, value)
    &&& forall|angle: T, c: T, s: T| #[trigger]
        call_ensures(O::cosine, (ops, angle), c) && #[trigger] call_ensures(
            O::sine,
            (ops, angle),
            s,
        ) ==> value(c) * value(c) + value(s) * value(s) == 1 as real
    &&& forall|angle: T, c: T| #[trigger]
        call_ensures(O::cosine, (ops, angle), c) && value(angle) == 0 as real ==> value(c)
            == 1 as real
    &&& forall|v: [T; 3], length: T| #[trigger]
        crate::scalar::length_of(ops, v, length) ==> value(length) >= 0 as real && value(length)
            * value(length) == crate::models::motions::dot(
            crate::models::motions::row_seen(value, v@),
            crate::models::motions::row_seen(value, v@),
        )
    &&& forall|a: T, r: T| #[trigger]
        call_ensures(O::not_zero, (ops, a), r) ==> value(r) > 0 as real && (value(a) > 0 as real
            ==> value(r) == value(a))
}

pub proof fn lemma_over(a: real, l: real)
    requires
        l != 0 as real,
    ensures
        (a / l) * l == a,
{
    assert((a / l) * l == a) by (nonlinear_arith)
        requires
            l != 0 as real,
    ;
}

proof fn lemma_squares(x: real, l: real)
    ensures
        (x * l) * (x * l) == (x * x) * (l * l),
{
    assert((x * l) * (x * l) == (x * x) * (l * l)) by (nonlinear_arith);
}

/// In exact arithmetic a vector over its length has length 1, and that many
/// times it the vector.
pub proof fn lemma_unit<T, O: AngleOps<T>>(
    ops: &O,
    v: [T; 3],
    length: T,
    divisor: T,
    k: Seq<T>,
    value: spec_fn(T) -> real,
)
    requires
        turns_exactly(ops, value),
        crate::scalar::length_of(ops, v, length),
        value(length) != 0 as real,
        value(divisor) == value(length),
        crate::rotation::is_divided(ops, v@, divisor, k),
    ensures
        crate::models::motions::dot(
            crate::models::motions::row_seen(value, k),
            crate::models::motions::row_seen(value, k),
        ) == 1 as real,
        scaled(value(length), crate::models::motions::row_seen(value, k))
            == crate::models::motions::row_seen(value, v@),
{
    let l = value(length);
    let (x, y, z) = (value(k[0]), value(k[1]), value(k[2]));
    lemma_over(value(v@[0]), l);
    lemma_over(value(v@[1]), l);
    lemma_over(value(v@[2]), l);
    assert(l * x == x * l && l * y == y * l && l * z == z * l) by (nonlinear_arith);
    lemma_squares(x, l);
    lemma_squares(y, l);
    lemma_squares(z, l);
    let (a, b, c, m) = (x * x, y * y, z * z, l * l);
    assert(a * m + b * m + c * m == (a + b + c) * m) by (nonlinear_arith);
    let q = a + b + c;
    assert(m > 0 as real) by (nonlinear_arith)
        requires
            m == l * l,
            l != 0 as real,
    ;
    assert(q == 1 as real) by (nonlinear_arith)
        requires
            q * m == m,
            m > 0 as real,
    ;
}

proof fn lemma_turn_entry<T, O: Arithmetic<T>>(
    ops: &O,
    cosine: T,
    sine: T,
    rest: T,
    eye: T,
    cross: T,
    a: T,
    b: T,
    r: T,
    value: spec_fn(T) -> real,
)
    requires
        crate::scalar::is_exact(ops, value),
        crate::rotation::is_turn_entry(ops, cosine, sine, rest, eye, cross, a, b, r),
    ensures
        value(r) == value(cosine) * value(eye) + value(sine) * value(cross) + (value(a) * value(
            rest,
        )) * value(b),
{
    let (p, q, o, w, u) = choose|p: T, q: T, o: T, w: T, u: T|
        {
            &&& #[trigger] crate::scalar::product_of(ops, eye, cosine, p)
            &&& #[trigger] crate::scalar::product_of(ops, cross, sine, q)
            &&& #[trigger] crate::scalar::product_of(ops, a, b, o)
            &&& #[trigger] crate::scalar::product_of(ops, o, rest, w)
            &&& #[trigger] crate::scalar::sum_of(ops, p, q, u)
            &&& crate::scalar::sum_of(ops, u, w, r)
        };
    let (e, c, k, s) = (value(eye), value(cosine), value(cross), value(sine));
    let (x, y, d) = (value(a), value(b), value(rest));
    assert(e * c == c * e) by (nonlinear_arith);
    assert(k * s == s * k) by (nonlinear_arith);
    assert((x * y) * d == (x * d) * y) by (nonlinear_arith);
}

/// In exact arithmetic the matrix of a turn is the rotation about its axis.
pub proof fn lemma_turn_seen<T, O: Arithmetic<T>>(
    ops: &O,
    k: Seq<T>,
    cosine: T,
    sine: T,
    zero: T,
    one: T,
    m: Seq<Seq<T>>,
    value: spec_fn(T) -> real,
)
    requires
        crate::scalar::is_exact(ops, value),
        value(zero) == 0 as real,
        value(one) == 1 as real,
        k.len() == 3,
        crate::rotation::is_turn(ops, k, cosine, sine, zero, one, m),
    ensures
        turn_of(value, m) == rodrigues(
            value(cosine),
            value(sine),
            crate::models::motions::row_seen(value, k),
        ),
{
    let (n, rest) = choose|n: Seq<T>, rest: T|
        {
            &&& n.len() == 3
            &&& crate::scalar::negative_of(ops, k[0], #[trigger] n[0])
            &&& crate::scalar::negative_of(ops, k[1], n[1])
            &&& crate::scalar::negative_of(ops, k[2], n[2])
            &&& #[trigger] crate::scalar::difference_of(ops, one, cosine, rest)
            &&& forall|i: int, j: int|
                0 <= i < 3 && 0 <= j < 3 ==> crate::rotation::is_turn_entry(
                    ops,
                    cosine,
                    sine,
                    rest,
                    if i == j {
                        one
                    } else {
                        zero
                    },
                    crate::rotation::cross_matrix(k, n, zero)[i][j],
                    k[i],
                    k[j],
                    #[trigger] m[i][j],
                )
        };
    let x = crate::rotation::cross_matrix(k, n, zero);
    assert forall|i: int, j: int| 0 <= i < 3 && 0 <= j < 3 implies value(#[trigger] m[i][j])
        == value(cosine) * value(
        if i == j {
            one
        } else {
            zero
        },
    ) + value(sine) * value(x[i][j]) + (value(k[i]) * value(rest)) * value(k[j]) by {
        lemma_turn_entry(
            ops,
            cosine,
            sine,
            rest,
            if i == j {
                one
            } else {
                zero
            },
            x[i][j],
            k[i],
            k[j],
            m[i][j],
            value,
        );
    }
    let t = turn_of(value, m);
    let r = rodrigues(value(cosine), value(sine), crate::models::motions::row_seen(value, k));
    assert(value(m[0][0]) == r.x.x && value(m[0][1]) == r.x.y && value(m[0][2]) == r.x.z);
    assert(value(m[1][0]) == r.y.x && value(m[1][1]) == r.y.y && value(m[1][2]) == r.y.z);
    assert(value(m[2][0]) == r.z.x && value(m[2][1]) == r.z.y && value(m[2][2]) == r.z.z);
    assert(t.x == r.x && t.y == r.y && t.z == r.z);
}

/// In exact arithmetic the matrix of a rotation vector is orthogonal.
pub proof fn law_rotation_vectors_orthogonal<T, O: AngleOps<T>>(
    ops: &O,
    v: [T; 3],
    zero: T,
    one: T,
    m: Seq<Seq<T>>,
    value: spec_fn(T) -> real,
)
    requires
        crate::scalar::is_exact(ops, value),
        turns_exactly(ops, value),
        value(zero) == 0 as real,
        value(one) == 1 as real,
        crate::rotation::is_rotation_of(ops, v, zero, one, m),
    ensures
        crate::models::motions::is_orthogonal(turn_of(value, m)),
{
    let steps = choose|s: TurnSteps<T>| #[trigger]
        crate::rotation::are_turn_steps(ops, v, zero, one, s, m);
    let (k, cosine, sine) = (steps.axis, steps.cosine, steps.sine);
    let (c, s) = (value(cosine), value(sine));
    if value(steps.angle) != 0 as real {
        lemma_unit(ops, v, steps.angle, steps.divisor, k@, value);
        lemma_turn_seen(ops, k@, cosine, sine, zero, one, m, value);
        law_rodrigues_orthogonal(c, s, crate::models::motions::row_seen(value, k@));
    } else {
        assert(s == 0 as real) by (nonlinear_arith)
            requires
                c == 1 as real,
                c * c + s * s == 1 as real,
        ;
        assert forall|i: int, j: int| 0 <= i < 3 && 0 <= j < 3 implies value(#[trigger] m[i][j])
            == if i == j {
            1 as real
        } else {
            0 as real
        } by {
            crate::rotation_laws::law_no_turn(
                ops,
                k@,
                cosine,
                sine,
                zero,
                one,
                m,
                value,
                i,
                j,
            );
        }
        let t = turn_of(value, m);
        let e = crate::models::motions::straight();
        assert(value(m[0][0]) == e.x.x && value(m[0][1]) == e.x.y && value(m[0][2]) == e.x.z);
        assert(value(m[1][0]) == e.y.x && value(m[1][1]) == e.y.y && value(m[1][2]) == e.y.z);
        assert(value(m[2][0]) == e.z.x && value(m[2][1]) == e.z.y && value(m[2][2]) == e.z.z);
        assert(t == e);
        crate::models::motions::lemma_straight(e);
        assert(crate::models::motions::transposed(e) == e);
    }
}

/// The direction of an axis of the coordinate system.
pub open spec fn axis_of(axis: char) -> Shift {
    let e = crate::models::motions::straight();
    if axis == 'x' || axis == 'X' {
        e.x
    } else if axis == 'y' || axis == 'Y' {
        e.y
    } else {
        e.z
    }
}

/// In exact arithmetic the matrix of an angle about an axis of the coordinate
/// system is the rotation about the direction of that axis.
pub proof fn law_euler_turns_about_axis<T>(
    axis: char,
    c: T,
    s: T,
    neg: T,
    zero: T,
    one: T,
    value: spec_fn(T) -> real,
)
    requires
        value(zero) == 0 as real,
        value(one) == 1 as real,
        value(neg) == -value(s),
        crate::rotation::euler_entries(axis, c, s, neg, zero, one) is Some,
    ensures
        turn_of(value, crate::rotation::euler_entries(axis, c, s, neg, zero, one)->0) == rodrigues(
            value(c),
            value(s),
            axis_of(axis),
        ),
{
    let (o, e) = (0 as real, 1 as real);
    let (p, q) = (value(c), value(s));
    let d = e - p;
    assert(p * e == p && p * o == o && q * e == q && q * o == o && q * -e == -q && q * -o == o)
        by (nonlinear_arith)
        requires
            o == 0 as real,
            e == 1 as real,
    ;
    assert((e * d) * e == d && (e * d) * o == o && (o * d) * e == o && (o * d) * o == o)
        by (nonlinear_arith)
        requires
            o == 0 as real,
            e == 1 as real,
    ;
    let m = crate::rotation::euler_entries(axis, c, s, neg, zero, one)->0;
    let t = turn_of(value, m);
    let r = rodrigues(p, q, axis_of(axis));
    assert(t.x == r.x && t.y == r.y && t.z == r.z);
}

/// In exact arithmetic a product of matrices stands for the maps one after the
/// other.
pub proof fn law_exact_product_turn<T, O: Arithmetic<T>>(
    ops: &O,
    a: Seq<Seq<T>>,
    b: Seq<Seq<T>>,
    r: Seq<Seq<T>>,
    value: spec_fn(T) -> real,
)
    requires
        crate::scalar::is_exact(ops, value),
        crate::rotation::is_matrix_product(ops, a, b, r),
    ensures
        turn_of(value, r) == crate::models::motions::turns(turn_of(value, a), turn_of(value, b)),
{
    assert forall|i: int, j: int| 0 <= i < 3 && 0 <= j < 3 implies value(#[trigger] r[i][j])
        == value(a[i][0]) * value(b[0][j]) + value(a[i][1]) * value(b[1][j]) + value(a[i][2])
        * value(b[2][j]) by {
        let terms = crate::rotation::inner_terms(
            a[i],
            crate::rotation::column(b, j),
        );
        crate::rotation_laws::law_exact_signed_sum(ops, terms, r[i][j], value);
        crate::rotation_laws::lemma_three_terms(value, terms);
    }
    let t = turn_of(value, r);
    let p = crate::models::motions::turns(turn_of(value, a), turn_of(value, b));
    assert(value(r[0][0]) == p.x.x && value(r[0][1]) == p.x.y && value(r[0][2]) == p.x.z);
    assert(value(r[1][0]) == p.y.x && value(r[1][1]) == p.y.y && value(r[1][2]) == p.y.z);
    assert(value(r[2][0]) == p.z.x && value(r[2][1]) == p.z.y && value(r[2][2]) == p.z.z);
    assert(t.x == p.x && t.y == p.y && t.z == p.z);
}

/// In exact arithmetic the rest pose of a bone turns it without stretching,
/// where its roll and the fallback do.
pub proof fn law_rest_poses_orthogonal<T, O: EndpointOps<T>>(
    ops: &O,
    head: [T; 3],
    tail: [T; 3],
    roll: [[T; 3]; 3],
    y_axis: [T; 3],
    fallback: [[T; 3]; 3],
    zero: T,
    one: T,
    pose: Seq<Seq<T>>,
    value: spec_fn(T) -> real,
)
    requires
        crate::scalar::is_exact(ops, value),
        turns_exactly(ops, value),
        value(zero) == 0 as real,
        value(one) == 1 as real,
        crate::models::motions::is_orthogonal(turn_of(value, crate::rotation::rows3(roll))),
        crate::models::motions::is_orthogonal(turn_of(value, crate::rotation::rows3(fallback))),
        crate::kinematics::bone_poses::is_bone_pose(
            ops,
            head,
            tail,
            roll,
            y_axis,
            fallback,
            zero,
            one,
            pose,
        ),
    ensures
        crate::models::motions::is_rigid(value, pose),
{
    let s = choose|s: BoneSteps<T>| #[trigger]
        crate::kinematics::bone_poses::are_bone_steps(
            ops,
            head,
            tail,
            roll,
            y_axis,
            fallback,
            zero,
            one,
            s,
        ) && pose =~~= crate::rotation::homogeneous(
            crate::rotation::rows3(s.rotation),
            head@,
            zero,
            one,
        );
    let turn = crate::rotation::rows3(s.turn);
    let spun = crate::rotation::rows3(roll);
    let rotation = crate::rotation::rows3(s.rotation);
    assert(pose == crate::rotation::homogeneous(rotation, head@, zero, one));
    if call_ensures(O::near_one, (ops, s.square), true) && crate::rotation::is_rotation_of(
        ops,
        s.rotvec,
        zero,
        one,
        turn,
    ) {
        law_rotation_vectors_orthogonal(ops, s.rotvec, zero, one, turn, value);
    } else if turn =~~= crate::kinematics::bone_poses::unturned(zero, one) {
        let e = crate::models::motions::straight();
        assert(turn == crate::kinematics::bone_poses::unturned(zero, one));
        assert(turn_of(value, turn) == e);
        crate::models::motions::lemma_straight(e);
        assert(crate::models::motions::transposed(e) == e);
    }
    law_exact_product_turn(ops, turn, spun, rotation, value);
    crate::models::motions::lemma_product_orthogonal(
        turn_of(value, turn),
        turn_of(value, spun),
    );
    assert(pose[0] == rotation[0].push(head@[0]));
    assert(pose[1] == rotation[1].push(head@[1]));
    assert(pose[2] == rotation[2].push(head@[2]));
    assert(crate::models::motions::motion_of(value, pose).turn == turn_of(value, rotation));
}

/// The matrix that turns a bone over is orthogonal.
pub proof fn law_turned_over_orthogonal<T, O: Arithmetic<T>>(
    ops: &O,
    zero: T,
    one: T,
    m: [[T; 3]; 3],
    value: spec_fn(T) -> real,
)
    requires
        crate::scalar::is_exact(ops, value),
        value(zero) == 0 as real,
        value(one) == 1 as real,
        crate::models::forward::is_turned_over(ops, zero, one, m),
    ensures
        crate::models::motions::is_orthogonal(turn_of(value, crate::rotation::rows3(m))),
{
    let n = choose|n: T| #[trigger]
        crate::scalar::negative_of(ops, one, n) && crate::rotation::rows3(m) =~~= seq![
            seq![one, zero, zero],
            seq![zero, n, zero],
            seq![zero, zero, n],
        ];
    let rows = crate::rotation::rows3(m);
    assert(rows == seq![seq![one, zero, zero], seq![zero, n, zero], seq![zero, zero, n]]);
    let t = turn_of(value, rows);
    assert(crate::models::motions::transposed(t) == t);
    let o = 0 as real;
    let e = 1 as real;
    let f = value(n);
    assert(f == -e);
    assert(e * e == e && e * o == o && o * e == o && o * o == o && f * f == e && f * o == o && o * f
        == o && e * f == f && f * e == f) by (nonlinear_arith)
        requires
            o == 0 as real,
            e == 1 as real,
            f == -e,
    ;
}

} // verus!
