//! In exact arithmetic the foot of a point on a triangle is the nearest point
//! of the triangle.
use vstd::prelude::*;

use crate::utils::triangle::{Bearing, Foot, NearestOps, Region};

verus! {

/// A point or an offset in space.
pub struct Vector {
    pub x: real,
    pub y: real,
    pub z: real,
}

pub open spec fn vector<T>(value: spec_fn(T) -> real, s: Seq<T>) -> Vector {
    Vector { x: value(s[0]), y: value(s[1]), z: value(s[2]) }
}

pub open spec fn dot(a: Vector, b: Vector) -> real {
    a.x * b.x + a.y * b.y + a.z * b.z
}

pub open spec fn plus(a: Vector, b: Vector) -> Vector {
    Vector { x: a.x + b.x, y: a.y + b.y, z: a.z + b.z }
}

pub open spec fn minus(a: Vector, b: Vector) -> Vector {
    Vector { x: a.x - b.x, y: a.y - b.y, z: a.z - b.z }
}

pub open spec fn scaled(k: real, a: Vector) -> Vector {
    Vector { x: k * a.x, y: k * a.y, z: k * a.z }
}

/// The square of the distance.
pub open spec fn square(a: Vector, b: Vector) -> real {
    dot(minus(a, b), minus(a, b))
}

proof fn lemma_products(a: real, b: real, c: real)
    ensures
        a * (b + c) == a * b + a * c,
        a * (b - c) == a * b - a * c,
        (b + c) * a == b * a + c * a,
        (b - c) * a == b * a - c * a,
        a * b == b * a,
{
    assert(a * (b + c) == a * b + a * c) by (nonlinear_arith);
    assert(a * (b - c) == a * b - a * c) by (nonlinear_arith);
    assert((b + c) * a == b * a + c * a) by (nonlinear_arith);
    assert((b - c) * a == b * a - c * a) by (nonlinear_arith);
    assert(a * b == b * a) by (nonlinear_arith);
}

proof fn lemma_grouped(a: real, b: real, c: real)
    ensures
        (a * b) * c == a * (b * c),
{
    assert((a * b) * c == a * (b * c)) by (nonlinear_arith);
}

/// `k` times a sum of four, two of them taken away.
proof fn lemma_times_four(k: real, a: real, b: real, c: real, d: real)
    ensures
        (a - b - c + d) * k == a * k - b * k - c * k + d * k,
{
    lemma_products(k, a - b - c, d);
    lemma_products(k, a - b, c);
    lemma_products(k, a, b);
}

/// The product of two differences.
proof fn lemma_times_two(a: real, b: real, c: real, d: real)
    ensures
        (a - b) * (c - d) == a * c - a * d - b * c + b * d,
{
    lemma_products(c - d, a, b);
    lemma_products(a, c, d);
    lemma_products(b, c, d);
}

/// The product of numbers of the same sign is positive, and of numbers of
/// different sign negative.
proof fn lemma_sign(a: real, b: real)
    ensures
        a > 0 as real && b > 0 as real ==> a * b > 0 as real,
        a < 0 as real && b > 0 as real ==> a * b < 0 as real,
        a > 0 as real && b < 0 as real ==> a * b < 0 as real,
        a < 0 as real && b < 0 as real ==> a * b > 0 as real,
        a == 0 as real || b == 0 as real ==> a * b == 0 as real,
{
    if a > 0 as real && b > 0 as real {
        assert(a * b > 0 as real) by (nonlinear_arith)
            requires
                a > 0 as real,
                b > 0 as real,
        ;
    }
    if a < 0 as real && b > 0 as real {
        assert(a * b < 0 as real) by (nonlinear_arith)
            requires
                a < 0 as real,
                b > 0 as real,
        ;
    }
    if a > 0 as real && b < 0 as real {
        assert(a * b < 0 as real) by (nonlinear_arith)
            requires
                a > 0 as real,
                b < 0 as real,
        ;
    }
    if a < 0 as real && b < 0 as real {
        assert(a * b > 0 as real) by (nonlinear_arith)
            requires
                a < 0 as real,
                b < 0 as real,
        ;
    }
    if a == 0 as real {
        assert(a * b == 0 as real) by (nonlinear_arith)
            requires
                a == 0 as real,
        ;
    }
    if b == 0 as real {
        assert(a * b == 0 as real) by (nonlinear_arith)
            requires
                b == 0 as real,
        ;
    }
}

proof fn lemma_dot_sum(u: Vector, v: Vector, w: Vector)
    ensures
        dot(u, plus(v, w)) == dot(u, v) + dot(u, w),
        dot(u, minus(v, w)) == dot(u, v) - dot(u, w),
        dot(minus(v, w), u) == dot(v, u) - dot(w, u),
        dot(plus(v, w), u) == dot(v, u) + dot(w, u),
        dot(u, v) == dot(v, u),
{
    lemma_products(u.x, v.x, w.x);
    lemma_products(u.y, v.y, w.y);
    lemma_products(u.z, v.z, w.z);
}

proof fn lemma_dot_scaled(u: Vector, k: real, v: Vector)
    ensures
        dot(u, scaled(k, v)) == k * dot(u, v),
        dot(scaled(k, v), u) == k * dot(u, v),
{
    lemma_products(u.x, k * v.x, k * v.x);
    lemma_products(u.y, k * v.y, k * v.y);
    lemma_products(u.z, k * v.z, k * v.z);
    lemma_grouped(k, v.x, u.x);
    lemma_grouped(k, v.y, u.y);
    lemma_grouped(k, v.z, u.z);
    lemma_products(v.x, u.x, u.x);
    lemma_products(v.y, u.y, u.y);
    lemma_products(v.z, u.z, u.z);
    lemma_products(k, u.x * v.x, u.y * v.y);
    lemma_products(k, u.x * v.x + u.y * v.y, u.z * v.z);
}

// ---------------------------------------------------------------------------
// Regions
// ---------------------------------------------------------------------------

/// The numbers that decide where the foot lies, from the inner products of
/// the edges with each other and with the offset of the point.
pub struct Numbers {
    pub d1: real,
    pub d2: real,
    pub e: real,
    pub f: real,
    pub g: real,
}

pub open spec fn d3(n: Numbers) -> real {
    n.d1 - n.e
}

pub open spec fn d4(n: Numbers) -> real {
    n.d2 - n.f
}

pub open spec fn d5(n: Numbers) -> real {
    n.d1 - n.f
}

pub open spec fn d6(n: Numbers) -> real {
    n.d2 - n.g
}

pub open spec fn vc(n: Numbers) -> real {
    n.d2 * n.e - n.d1 * n.f
}

pub open spec fn vb(n: Numbers) -> real {
    n.d1 * n.g - n.d2 * n.f
}

pub open spec fn area(n: Numbers) -> real {
    n.e * n.g - n.f * n.f
}

pub open spec fn va(n: Numbers) -> real {
    area(n) - vb(n) - vc(n)
}

/// The triangle is not degenerate.
pub open spec fn is_proper(n: Numbers) -> bool {
    n.e > 0 as real && n.g > 0 as real && area(n) > 0 as real
}

/// A point outside the first edge and beyond the first corner along it, but
/// not beyond that corner along the other edge, is outside the other edge
/// too, and its foot lies on that edge or at its end.
proof fn lemma_corner(n: Numbers)
    requires
        is_proper(n),
        n.d1 < 0 as real,
        n.d2 > 0 as real,
        vc(n) <= 0 as real,
    ensures
        vb(n) < 0 as real,
        d6(n) <= 0 as real || (d6(n) >= 0 as real && d5(n) <= d6(n)),
{
    let d1 = n.d1;
    let d2 = n.d2;
    let e = n.e;
    let f = n.f;
    let g = n.g;
    let x = d2 * e;
    let y = d1 * f;
    lemma_sign(d2, e);
    lemma_sign(d1, f);
    assert(f < 0 as real);
    // `e` times `vb` is at most `d1` times the area.
    lemma_sign(y - x, f);
    lemma_products(f, y, x);
    assert(y * f <= x * f);
    let b = d1 * g - d2 * f;
    lemma_products(e, d1 * g, d2 * f);
    lemma_grouped(d1, g, e);
    lemma_products(g, e, e);
    lemma_grouped(d2, f, e);
    lemma_products(f, e, e);
    lemma_grouped(d2, e, f);
    lemma_grouped(d1, f, f);
    assert(b * e == d1 * (e * g) - x * f);
    lemma_products(d1, e * g, f * f);
    lemma_sign(d1, e * g - f * f);
    assert(b * e < 0 as real);
    lemma_sign(b, e);
    if d6(n) > 0 as real {
        lemma_products(e, d2, g);
        lemma_sign(d2 - g, e);
        assert(f * f < y);
        lemma_products(f, f, d1);
        lemma_sign(f - d1, f);
    }
}

/// The same triangle and point, with the corners taken in another order.
pub open spec fn from_b(n: Numbers) -> Numbers {
    Numbers { d1: -d3(n), d2: d4(n) - d3(n), e: n.e, f: n.e - n.f, g: n.e - n.f - n.f + n.g }
}

pub open spec fn swapped(n: Numbers) -> Numbers {
    Numbers { d1: n.d2, d2: n.d1, e: n.g, f: n.f, g: n.e }
}

proof fn lemma_from_b(n: Numbers)
    ensures
        vc(from_b(n)) == vc(n),
        vb(from_b(n)) == va(n),
        area(from_b(n)) == area(n),
        va(from_b(n)) == vb(n),
        d3(from_b(n)) == -n.d1,
        d4(from_b(n)) == n.d2 - n.d1,
        d5(from_b(n)) == -d5(n),
        d6(from_b(n)) == d6(n) - d5(n),
{
    let d1 = n.d1;
    let d2 = n.d2;
    let e = n.e;
    let f = n.f;
    let g = n.g;
    let k = e - f;
    let h = e - f - f + g;
    // The monomials, each in one order.
    lemma_products(e, f, g);
    lemma_products(f, g, g);
    lemma_products(d1, e, f);
    lemma_products(d1, g, g);
    lemma_products(d2, e, f);
    lemma_products(d2, g, g);
    // The side of the first edge.
    lemma_times_four(e, d2, f, d1, e);
    lemma_times_two(e, d1, e, f);
    assert(vc(from_b(n)) == (d2 - f - d1 + e) * e - (e - d1) * (e - f));
    assert(vc(from_b(n)) == d2 * e - d1 * f);
    // The area.
    lemma_times_four(e, e, f, f, g);
    lemma_products(e, h, h);
    lemma_times_two(e, f, e, f);
    assert(area(from_b(n)) == e * h - k * k);
    // The side of the other edge.
    lemma_times_four(e, e, f, f, g);
    lemma_times_four(d1, e, f, f, g);
    lemma_products(h, e, d1);
    lemma_products(d1, h, h);
    lemma_times_four(e, d2, f, d1, e);
    lemma_times_four(f, d2, f, d1, e);
    lemma_products(d2 - f - d1 + e, e, f);
    assert(vb(from_b(n)) == (e - d1) * h - (d2 - f - d1 + e) * k);
    assert(vb(from_b(n)) == va(n));
}

proof fn lemma_from_b_proper(n: Numbers)
    requires
        is_proper(n),
    ensures
        is_proper(from_b(n)),
{
    lemma_from_b(n);
    let e = n.e;
    let h = n.e - n.f - n.f + n.g;
    let k = n.e - n.f;
    lemma_sign(k, k);
    lemma_sign(e, h);
    assert(e * h > k * k);
}

proof fn lemma_swapped(n: Numbers)
    ensures
        vc(swapped(n)) == vb(n),
        vb(swapped(n)) == vc(n),
        area(swapped(n)) == area(n),
        va(swapped(n)) == va(n),
        d3(swapped(n)) == d6(n),
        d4(swapped(n)) == d5(n),
        d5(swapped(n)) == d4(n),
        d6(swapped(n)) == d3(n),
{
    lemma_products(n.e, n.g, n.g);
}

/// Where no corner and no edge takes the foot, the point lies over the
/// inside.
proof fn lemma_inside(n: Numbers)
    requires
        is_proper(n),
        n.d1 > 0 as real || n.d2 > 0 as real,
        d3(n) < 0 as real || d4(n) > d3(n),
        vc(n) > 0 as real || n.d1 < 0 as real || d3(n) > 0 as real,
        d6(n) < 0 as real || d5(n) > d6(n),
        vb(n) > 0 as real || n.d2 < 0 as real || d6(n) > 0 as real,
        va(n) > 0 as real || d4(n) < d3(n) || d5(n) < d6(n),
    ensures
        va(n) > 0 as real,
        vb(n) > 0 as real,
        vc(n) > 0 as real,
{
    let b = from_b(n);
    lemma_from_b(n);
    lemma_from_b_proper(n);
    let s = swapped(n);
    lemma_swapped(n);
    let c = from_b(s);
    lemma_from_b(s);
    lemma_from_b_proper(s);
    let t = swapped(b);
    lemma_swapped(b);
    let u = swapped(c);
    lemma_swapped(c);
    if vc(n) <= 0 as real {
        if n.d1 < 0 as real {
            lemma_corner(n);
        } else {
            lemma_corner(b);
        }
    }
    if vb(n) <= 0 as real {
        if n.d2 < 0 as real {
            lemma_corner(s);
        } else {
            lemma_corner(c);
        }
    }
    if va(n) <= 0 as real {
        if d4(n) < d3(n) {
            lemma_corner(t);
        } else {
            lemma_corner(u);
        }
    }
}

// ---------------------------------------------------------------------------
// Exact values
// ---------------------------------------------------------------------------

/// The operations are exact in the numbers that `value` stands for.
pub open spec fn is_exact<T, O: NearestOps<T>>(ops: &O, value: spec_fn(T) -> real) -> bool {
    &&& crate::scalar::is_exact(ops, value)
    &&& forall|a: T, b: T, r: bool| #[trigger]
        crate::utils::triangle::says_at_most(ops, a, b, r) ==> r == (value(a) <= value(b))
    &&& crate::scalar::divides_exactly(ops, value)
}

/// The numbers of a point and a triangle.
pub open spec fn numbers(p: Vector, a: Vector, b: Vector, c: Vector) -> Numbers {
    let ab = minus(b, a);
    let ac = minus(c, a);
    let ap = minus(p, a);
    Numbers { d1: dot(ab, ap), d2: dot(ac, ap), e: dot(ab, ab), f: dot(ab, ac), g: dot(ac, ac) }
}

proof fn lemma_inner<T, O: NearestOps<T>>(
    ops: &O,
    a: Seq<T>,
    b: Seq<T>,
    r: T,
    value: spec_fn(T) -> real,
)
    requires
        is_exact(ops, value),
        crate::rotation::is_inner(ops, a, b, r),
    ensures
        value(r) == dot(vector(value, a), vector(value, b)),
{
    let terms = crate::rotation::inner_terms(a, b);
    crate::rotation_laws::law_exact_signed_sum(ops, terms, r, value);
    crate::rotation_laws::lemma_three_terms(value, terms);
}

proof fn lemma_minor<T, O: NearestOps<T>>(
    ops: &O,
    a: T,
    b: T,
    c: T,
    d: T,
    r: T,
    value: spec_fn(T) -> real,
)
    requires
        is_exact(ops, value),
        crate::rotation::is_minor(ops, a, b, c, d, r),
    ensures
        value(r) == value(a) * value(b) - value(c) * value(d),
{
    let terms = seq![crate::rotation::added(a, b), crate::rotation::taken(c, d)];
    crate::rotation_laws::law_exact_signed_sum(ops, terms, r, value);
    let first = terms.drop_last();
    assert(crate::rotation_laws::exact_signed_sum(value, first) == value(a) * value(b));
}

/// The bearing stands for the numbers.
proof fn lemma_bearing<T, O: NearestOps<T>>(
    ops: &O,
    p: Seq<T>,
    a: Seq<T>,
    b: Seq<T>,
    c: Seq<T>,
    s: Bearing<T>,
    value: spec_fn(T) -> real,
)
    requires
        is_exact(ops, value),
        crate::utils::triangle::is_bearing(ops, p, a, b, c, s),
    ensures
        ({
            let n = numbers(
                vector(value, p),
                vector(value, a),
                vector(value, b),
                vector(value, c),
            );
            &&& vector(value, s.ab@) == minus(vector(value, b), vector(value, a))
            &&& vector(value, s.ac@) == minus(vector(value, c), vector(value, a))
            &&& value(s.d1) == n.d1
            &&& value(s.d2) == n.d2
            &&& value(s.d3) == d3(n)
            &&& value(s.d4) == d4(n)
            &&& value(s.d5) == d5(n)
            &&& value(s.d6) == d6(n)
            &&& value(s.vc) == vc(n)
            &&& value(s.vb) == vb(n)
            &&& value(s.va) == va(n)
            &&& value(s.e) == d4(n) - d3(n)
            &&& value(s.f) == d5(n) - d6(n)
        }),
{
    let vp = vector(value, p);
    let va_ = vector(value, a);
    let vb_ = vector(value, b);
    let vc_ = vector(value, c);
    let n = numbers(vp, va_, vb_, vc_);
    let ab = minus(vb_, va_);
    let ac = minus(vc_, va_);
    let ap = minus(vp, va_);
    assert(vector(value, s.ab@) == ab);
    assert(vector(value, s.ac@) == ac);
    assert(vector(value, s.ap@) == ap);
    assert(vector(value, s.bp@) == minus(ap, ab));
    assert(vector(value, s.cp@) == minus(ap, ac));
    lemma_inner(ops, s.ab@, s.ap@, s.d1, value);
    lemma_inner(ops, s.ac@, s.ap@, s.d2, value);
    lemma_inner(ops, s.ab@, s.bp@, s.d3, value);
    lemma_inner(ops, s.ac@, s.bp@, s.d4, value);
    lemma_inner(ops, s.ab@, s.cp@, s.d5, value);
    lemma_inner(ops, s.ac@, s.cp@, s.d6, value);
    lemma_dot_sum(ab, ap, ab);
    lemma_dot_sum(ac, ap, ab);
    lemma_dot_sum(ab, ap, ac);
    lemma_dot_sum(ac, ap, ac);
    lemma_dot_sum(ab, ac, ac);
    lemma_minor(ops, s.d1, s.d4, s.d3, s.d2, s.vc, value);
    lemma_minor(ops, s.d5, s.d2, s.d1, s.d6, s.vb, value);
    lemma_minor(ops, s.d3, s.d6, s.d5, s.d4, s.va, value);
    lemma_sides(n);
}

proof fn lemma_sides(n: Numbers)
    ensures
        n.d1 * d4(n) - d3(n) * n.d2 == vc(n),
        d5(n) * n.d2 - n.d1 * d6(n) == vb(n),
        d3(n) * d6(n) - d5(n) * d4(n) == va(n),
{
    let d1 = n.d1;
    let d2 = n.d2;
    let e = n.e;
    let f = n.f;
    let g = n.g;
    lemma_products(d1, d2, f);
    lemma_products(d2, d1, e);
    lemma_products(d2, d1, f);
    lemma_products(d1, d2, g);
    lemma_products(e, d2, d2);
    lemma_times_two(d1, e, d2, g);
    lemma_times_two(d1, f, d2, f);
    lemma_products(d1, g, g);
    lemma_products(f, d2, d2);
}

/// The foot as its shares of the edges say.
pub open spec fn point_at(a: Vector, ab: Vector, ac: Vector, v: real, w: real) -> Vector {
    plus(plus(a, scaled(v, ab)), scaled(w, ac))
}

/// The shares are not negative, and the offset from the foot to the point does
/// not lead toward any corner.
pub open spec fn is_best(n: Numbers, v: real, w: real) -> bool {
    let alpha = n.d1 - v * n.e - w * n.f;
    let beta = n.d2 - v * n.f - w * n.g;
    let at = v * alpha + w * beta;
    &&& v >= 0 as real
    &&& w >= 0 as real
    &&& v + w <= 1 as real
    &&& -at <= 0 as real
    &&& alpha - at <= 0 as real
    &&& beta - at <= 0 as real
}

proof fn lemma_one(x: real)
    ensures
        (1 as real) * x == x,
        x * (1 as real) == x,
        (0 as real) * x == 0 as real,
        x * (0 as real) == 0 as real,
{
    assert((1 as real) * x == x) by (nonlinear_arith);
    assert(x * (1 as real) == x) by (nonlinear_arith);
    assert((0 as real) * x == 0 as real) by (nonlinear_arith);
    assert(x * (0 as real) == 0 as real) by (nonlinear_arith);
}

proof fn lemma_undone(a: real, b: real)
    requires
        b != 0 as real,
    ensures
        (a / b) * b == a,
{
    assert((a / b) * b == a) by (nonlinear_arith)
        requires
            b != 0 as real,
    ;
}

/// What is known of a quotient by a positive number.
proof fn lemma_quotient(t: real, d: real, x: real)
    requires
        t * d == x,
        d > 0 as real,
    ensures
        x >= 0 as real ==> t >= 0 as real,
        x <= 0 as real ==> t <= 0 as real,
        x == 0 as real ==> t == 0 as real,
        x <= d ==> t <= 1 as real,
{
    lemma_sign(t, d);
    lemma_sign(t - 1 as real, d);
    lemma_products(d, t, 1 as real);
    lemma_one(d);
}

proof fn lemma_best_corners(n: Numbers)
    ensures
        n.d1 <= 0 as real && n.d2 <= 0 as real ==> is_best(n, 0 as real, 0 as real),
        d3(n) >= 0 as real && d4(n) <= d3(n) ==> is_best(n, 1 as real, 0 as real),
        d6(n) >= 0 as real && d5(n) <= d6(n) ==> is_best(n, 0 as real, 1 as real),
{
    lemma_one(n.e);
    lemma_one(n.f);
    lemma_one(n.g);
    lemma_one(n.d1);
    lemma_one(n.d2);
    lemma_one(d3(n));
    lemma_one(d4(n));
    lemma_one(d5(n));
    lemma_one(d6(n));
}

proof fn lemma_best_ab(n: Numbers, v: real)
    requires
        is_proper(n),
        vc(n) <= 0 as real,
        n.d1 >= 0 as real,
        d3(n) <= 0 as real,
        v * n.e == n.d1,
    ensures
        is_best(n, v, 0 as real),
{
    lemma_one(n.f);
    lemma_one(n.g);
    lemma_quotient(v, n.e, n.d1);
    let beta = n.d2 - v * n.f;
    lemma_one(beta);
    lemma_one(v);
    lemma_products(n.e, n.d2, v * n.f);
    lemma_grouped(v, n.f, n.e);
    lemma_products(n.f, n.e, n.e);
    lemma_grouped(v, n.e, n.f);
    assert(beta * n.e == vc(n));
    lemma_quotient(beta, n.e, vc(n));
    assert(n.d1 - v * n.e - (0 as real) * n.f == 0 as real);
    assert(n.d2 - v * n.f - (0 as real) * n.g == beta);
}

proof fn lemma_best_swapped(n: Numbers, v: real, w: real)
    requires
        is_best(swapped(n), v, w),
    ensures
        is_best(n, w, v),
{
}

proof fn lemma_best_bc(n: Numbers, w: real)
    requires
        is_proper(n),
        va(n) <= 0 as real,
        d4(n) >= d3(n),
        d5(n) >= d6(n),
        w * (d4(n) - d3(n) + (d5(n) - d6(n))) == d4(n) - d3(n),
    ensures
        is_best(n, 1 as real - w, w),
{
    let h = n.e - n.f - n.f + n.g;
    let k = n.e - n.f;
    let step = d4(n) - d3(n);
    let v = 1 as real - w;
    lemma_from_b_proper(n);
    assert(h > 0 as real);
    assert(d4(n) - d3(n) + (d5(n) - d6(n)) == h);
    lemma_quotient(w, h, step);
    lemma_products(n.e, 1 as real, w);
    lemma_products(n.f, 1 as real, w);
    lemma_one(n.e);
    lemma_one(n.f);
    let alpha = n.d1 - v * n.e - w * n.f;
    let beta = n.d2 - v * n.f - w * n.g;
    // The two are equal.
    lemma_products(w, n.e, n.f);
    lemma_products(w, n.e - n.f, n.f);
    lemma_products(w, n.e - n.f - n.f, n.g);
    assert(w * h == w * n.e - w * n.f - w * n.f + w * n.g);
    assert(beta == alpha);
    lemma_products(alpha, v, w);
    lemma_one(alpha);
    assert(v * alpha + w * beta == alpha);
    // `h` times `alpha` is the negative of `va`.
    assert(alpha == d3(n) + w * k);
    lemma_products(h, d3(n), w * k);
    lemma_grouped(w, k, h);
    lemma_products(k, h, h);
    lemma_grouped(w, h, k);
    assert(alpha * h == d3(n) * h + step * k);
    lemma_from_b(n);
    assert(vb(from_b(n)) == (-d3(n)) * h - step * k);
    lemma_products(h, 0 as real, d3(n));
    lemma_one(h);
    assert(alpha * h == -va(n));
    lemma_quotient(alpha, h, -va(n));
}

proof fn lemma_best_inside(n: Numbers, v: real, w: real)
    requires
        is_proper(n),
        va(n) > 0 as real,
        vb(n) > 0 as real,
        vc(n) > 0 as real,
        v * area(n) == vb(n),
        w * area(n) == vc(n),
    ensures
        is_best(n, v, w),
{
    let d1 = n.d1;
    let d2 = n.d2;
    let e = n.e;
    let f = n.f;
    let g = n.g;
    let d = area(n);
    lemma_quotient(v, d, vb(n));
    lemma_quotient(w, d, vc(n));
    lemma_products(d, v, w);
    lemma_quotient(v + w, d, vb(n) + vc(n));
    let alpha = d1 - v * e - w * f;
    let beta = d2 - v * f - w * g;
    // `alpha` times the area.
    lemma_products(d, d1, v * e);
    lemma_products(d, d1 - v * e, w * f);
    lemma_grouped(v, e, d);
    lemma_grouped(w, f, d);
    lemma_products(e, d, d);
    lemma_products(f, d, d);
    lemma_grouped(v, d, e);
    lemma_grouped(w, d, f);
    assert(alpha * d == d1 * d - vb(n) * e - vc(n) * f);
    lemma_cubic(d1, d2, e, f, g);
    assert(alpha * d == 0 as real);
    lemma_quotient(alpha, d, 0 as real);
    // `beta` times the area.
    lemma_products(d, d2, v * f);
    lemma_products(d, d2 - v * f, w * g);
    lemma_grouped(v, f, d);
    lemma_grouped(w, g, d);
    lemma_products(g, d, d);
    lemma_grouped(v, d, f);
    lemma_grouped(w, d, g);
    assert(beta * d == d2 * d - vb(n) * f - vc(n) * g);
    lemma_cubic(d2, d1, g, f, e);
    lemma_products(e, g, g);
    assert(beta * d == 0 as real);
    lemma_quotient(beta, d, 0 as real);
    lemma_one(v);
    lemma_one(w);
}

proof fn lemma_cubic(x: real, y: real, e: real, f: real, g: real)
    ensures
        x * (e * g - f * f) - (x * g - y * f) * e - (y * e - x * f) * f == 0 as real,
{
    lemma_products(x, e * g, f * f);
    lemma_products(e, x * g, y * f);
    lemma_products(f, y * e, x * f);
    lemma_grouped(x, g, e);
    lemma_products(g, e, e);
    lemma_grouped(y, f, e);
    lemma_grouped(y, e, f);
    lemma_products(e, f, f);
    lemma_grouped(x, f, f);
}

/// A mix of the corners.
pub open spec fn mix(a: Vector, b: Vector, c: Vector, s: real, t: real, r: real) -> Vector {
    plus(plus(scaled(s, a), scaled(t, b)), scaled(r, c))
}

proof fn lemma_mix(a: Vector, b: Vector, c: Vector, s: real, t: real, r: real)
    requires
        s + t + r == 1 as real,
    ensures
        mix(a, b, c, s, t, r) == point_at(a, minus(b, a), minus(c, a), t, r),
{
    lemma_mix_coordinate(a.x, b.x, c.x, s, t, r);
    lemma_mix_coordinate(a.y, b.y, c.y, s, t, r);
    lemma_mix_coordinate(a.z, b.z, c.z, s, t, r);
}

proof fn lemma_mix_coordinate(a: real, b: real, c: real, s: real, t: real, r: real)
    requires
        s + t + r == 1 as real,
    ensures
        s * a + t * b + r * c == a + t * (b - a) + r * (c - a),
{
    lemma_products(t, b, a);
    lemma_products(r, c, a);
    lemma_products(a, s, t);
    lemma_products(a, s + t, r);
    lemma_one(a);
}

/// Where the offset leads toward no corner, no point of the triangle is
/// nearer.
proof fn lemma_nearest(p: Vector, a: Vector, ab: Vector, ac: Vector, v: real, w: real, t: real, r: real)
    requires
        is_best(
            (Numbers {
                d1: dot(ab, minus(p, a)),
                d2: dot(ac, minus(p, a)),
                e: dot(ab, ab),
                f: dot(ab, ac),
                g: dot(ac, ac),
            }),
            v,
            w,
        ),
        t >= 0 as real,
        r >= 0 as real,
        t + r <= 1 as real,
    ensures
        square(p, point_at(a, ab, ac, v, w)) <= square(p, point_at(a, ab, ac, t, r)),
{
    let q = point_at(a, ab, ac, v, w);
    let x = point_at(a, ab, ac, t, r);
    let ap = minus(p, a);
    let n = minus(minus(ap, scaled(v, ab)), scaled(w, ac));
    assert(n == minus(p, q));
    let d = plus(scaled(t - v, ab), scaled(r - w, ac));
    lemma_products(ab.x, t, v);
    lemma_products(ab.y, t, v);
    lemma_products(ab.z, t, v);
    lemma_products(ac.x, r, w);
    lemma_products(ac.y, r, w);
    lemma_products(ac.z, r, w);
    assert(d == minus(x, q));
    assert(minus(p, x) == minus(n, d));
    // The inner products of the offset with the edges.
    lemma_dot_sum(ab, minus(ap, scaled(v, ab)), scaled(w, ac));
    lemma_dot_sum(ab, ap, scaled(v, ab));
    lemma_dot_scaled(ab, v, ab);
    lemma_dot_scaled(ab, w, ac);
    lemma_dot_sum(ac, minus(ap, scaled(v, ab)), scaled(w, ac));
    lemma_dot_sum(ac, ap, scaled(v, ab));
    lemma_dot_scaled(ac, v, ab);
    lemma_dot_scaled(ac, w, ac);
    lemma_dot_sum(ab, ac, ac);
    let alpha = dot(ab, ap) - v * dot(ab, ab) - w * dot(ab, ac);
    let beta = dot(ac, ap) - v * dot(ab, ac) - w * dot(ac, ac);
    assert(dot(ab, n) == alpha);
    assert(dot(ac, n) == beta);
    lemma_dot_sum(n, scaled(t - v, ab), scaled(r - w, ac));
    lemma_dot_scaled(n, t - v, ab);
    lemma_dot_scaled(n, r - w, ac);
    lemma_dot_sum(n, ab, ab);
    lemma_dot_sum(n, ac, ac);
    assert(dot(n, d) == (t - v) * alpha + (r - w) * beta);
    // It leads toward no point of the triangle.
    let at = v * alpha + w * beta;
    let s = 1 as real - t - r;
    lemma_products(alpha, t, v);
    lemma_products(beta, r, w);
    assert(dot(n, d) == t * alpha + r * beta - at);
    lemma_products(t, alpha, at);
    lemma_products(r, beta, at);
    lemma_products(at, 1 as real, t);
    lemma_products(at, 1 as real - t, r);
    lemma_one(at);
    assert(dot(n, d) == t * (alpha - at) + r * (beta - at) - s * at);
    lemma_sign(t, alpha - at);
    lemma_sign(r, beta - at);
    lemma_sign(s, at);
    assert(dot(n, d) <= 0 as real);
    // So to go there is to go away.
    lemma_dot_sum(minus(n, d), n, d);
    lemma_dot_sum(n, n, d);
    lemma_dot_sum(d, n, d);
    assert(dot(minus(n, d), minus(n, d)) == dot(n, n) - dot(n, d) - dot(n, d) + dot(d, d));
    lemma_sign(d.x, d.x);
    lemma_sign(d.y, d.y);
    lemma_sign(d.z, d.z);
    assert(dot(d, d) >= 0 as real);
}

proof fn lemma_along<T, O: NearestOps<T>>(
    ops: &O,
    a: Seq<T>,
    t: T,
    d: Seq<T>,
    q: Seq<T>,
    value: spec_fn(T) -> real,
)
    requires
        is_exact(ops, value),
        crate::utils::triangle::is_along(ops, a, t, d, q),
    ensures
        vector(value, q) == plus(vector(value, a), scaled(value(t), vector(value, d))),
{
}

/// The first `i` pairs that have to hold do.
proof fn lemma_holds<T, O: NearestOps<T>>(
    ops: &O,
    pairs: Seq<(T, T)>,
    i: int,
    value: spec_fn(T) -> real,
)
    requires
        is_exact(ops, value),
        crate::utils::triangle::all_hold(ops, pairs),
        0 <= i < pairs.len(),
    ensures
        value(pairs[i].0) <= value(pairs[i].1),
{
    assert(crate::utils::triangle::says_at_most(ops, pairs[i].0, pairs[i].1, true));
}

proof fn lemma_fails<T, O: NearestOps<T>>(
    ops: &O,
    pairs: Seq<(T, T)>,
    value: spec_fn(T) -> real,
) -> (i: int)
    requires
        is_exact(ops, value),
        crate::utils::triangle::one_fails(ops, pairs),
    ensures
        0 <= i < pairs.len(),
        value(pairs[i].0) > value(pairs[i].1),
{
    choose|i: int|
        0 <= i < pairs.len() && crate::utils::triangle::says_at_most(
            ops,
            (#[trigger] pairs[i]).0,
            pairs[i].1,
            false,
        )
}

/// The shares are those of the nearest point, and the point lies where they
/// say.
pub open spec fn is_nearest_foot<T>(
    value: spec_fn(T) -> real,
    p: Vector,
    a: Vector,
    b: Vector,
    c: Vector,
    foot: Foot<T>,
) -> bool {
    let u = value(foot.shares@[0]);
    let v = value(foot.shares@[1]);
    let w = value(foot.shares@[2]);
    &&& is_best(numbers(p, a, b, c), v, w)
    &&& u == 1 as real - v - w
    &&& vector(value, foot.point@) == point_at(a, minus(b, a), minus(c, a), v, w)
}

proof fn lemma_vertex_feet(a: Vector, b: Vector, c: Vector)
    ensures
        point_at(a, minus(b, a), minus(c, a), 0 as real, 0 as real) == a,
        point_at(a, minus(b, a), minus(c, a), 1 as real, 0 as real) == b,
        point_at(a, minus(b, a), minus(c, a), 0 as real, 1 as real) == c,
{
    let ab = minus(b, a);
    let ac = minus(c, a);
    lemma_one(ab.x);
    lemma_one(ab.y);
    lemma_one(ab.z);
    lemma_one(ac.x);
    lemma_one(ac.y);
    lemma_one(ac.z);
}

proof fn lemma_edge_foot(a: Vector, b: Vector, c: Vector, t: real)
    ensures
        point_at(a, minus(b, a), minus(c, a), t, 0 as real) == plus(a, scaled(t, minus(b, a))),
        point_at(a, minus(b, a), minus(c, a), 0 as real, t) == plus(a, scaled(t, minus(c, a))),
        point_at(a, minus(b, a), minus(c, a), 1 as real - t, t) == plus(b, scaled(t, minus(c, b))),
{
    let ab = minus(b, a);
    let ac = minus(c, a);
    lemma_one(ab.x);
    lemma_one(ab.y);
    lemma_one(ab.z);
    lemma_one(ac.x);
    lemma_one(ac.y);
    lemma_one(ac.z);
    lemma_products(ab.x, 1 as real, t);
    lemma_products(ab.y, 1 as real, t);
    lemma_products(ab.z, 1 as real, t);
    lemma_products(t, ac.x, ab.x);
    lemma_products(t, ac.y, ab.y);
    lemma_products(t, ac.z, ab.z);
}

#[verifier::spinoff_prover]
proof fn lemma_placed<T, O: NearestOps<T>>(
    ops: &O,
    p: [T; 3],
    a: [T; 3],
    b: [T; 3],
    c: [T; 3],
    zero: T,
    one: T,
    s: Bearing<T>,
    r: Region,
    foot: Foot<T>,
    value: spec_fn(T) -> real,
)
    requires
        is_exact(ops, value),
        value(zero) == 0 as real,
        value(one) == 1 as real,
        is_proper(
            numbers(vector(value, p@), vector(value, a@), vector(value, b@), vector(value, c@)),
        ),
        crate::utils::triangle::is_bearing(ops, p@, a@, b@, c@, s),
        crate::utils::triangle::is_region(ops, s, zero, r),
        crate::utils::triangle::is_placed(ops, a, b, c, s, zero, one, r, foot),
    ensures
        is_nearest_foot(
            value,
            vector(value, p@),
            vector(value, a@),
            vector(value, b@),
            vector(value, c@),
            foot,
        ),
{
    let vp = vector(value, p@);
    let va_ = vector(value, a@);
    let vb_ = vector(value, b@);
    let vc_ = vector(value, c@);
    let n = numbers(vp, va_, vb_, vc_);
    let u = value(foot.shares@[0]);
    let v = value(foot.shares@[1]);
    let w = value(foot.shares@[2]);
    lemma_bearing(ops, p@, a@, b@, c@, s, value);
    let pairs = crate::utils::triangle::conditions(s, zero, r);
    match r {
        Region::A => {
            lemma_holds(ops, pairs, 0, value);
            lemma_holds(ops, pairs, 1, value);
            lemma_best_corners(n);
            lemma_vertex_feet(va_, vb_, vc_);
        },
        Region::B => {
            lemma_holds(ops, pairs, 0, value);
            lemma_holds(ops, pairs, 1, value);
            lemma_best_corners(n);
            lemma_vertex_feet(va_, vb_, vc_);
        },
        Region::C => {
            lemma_holds(ops, pairs, 0, value);
            lemma_holds(ops, pairs, 1, value);
            lemma_best_corners(n);
            lemma_vertex_feet(va_, vb_, vc_);
        },
        Region::Ab => {
            lemma_holds(ops, pairs, 0, value);
            lemma_holds(ops, pairs, 1, value);
            lemma_holds(ops, pairs, 2, value);
            let t = foot.shares@[1];
            let d = choose|d: T| #[trigger]
                crate::scalar::difference_of(ops, s.d1, s.d3, d)
                    && crate::scalar::quotient_of(ops, s.d1, d, t);
            assert(value(d) == n.e);
            lemma_undone(n.d1, n.e);
            assert(v * n.e == n.d1);
            lemma_best_ab(n, v);
            lemma_along(ops, a@, t, s.ab@, foot.point@, value);
            lemma_edge_foot(va_, vb_, vc_, v);
        },
        Region::Ac => {
            lemma_holds(ops, pairs, 0, value);
            lemma_holds(ops, pairs, 1, value);
            lemma_holds(ops, pairs, 2, value);
            let t = foot.shares@[2];
            let d = choose|d: T| #[trigger]
                crate::scalar::difference_of(ops, s.d2, s.d6, d)
                    && crate::scalar::quotient_of(ops, s.d2, d, t);
            assert(value(d) == n.g);
            lemma_undone(n.d2, n.g);
            assert(w * n.g == n.d2);
            lemma_swapped(n);
            lemma_best_ab(swapped(n), w);
            lemma_best_swapped(n, w, 0 as real);
            lemma_along(ops, a@, t, s.ac@, foot.point@, value);
            lemma_edge_foot(va_, vb_, vc_, w);
        },
        Region::Bc => {
            lemma_holds(ops, pairs, 0, value);
            lemma_holds(ops, pairs, 1, value);
            lemma_holds(ops, pairs, 2, value);
            let t = foot.shares@[2];
            let d = choose|d: T| #[trigger]
                crate::scalar::sum_of(ops, s.e, s.f, d) && crate::scalar::quotient_of(
                    ops,
                    s.e,
                    d,
                    t,
                );
            lemma_from_b_proper(n);
            assert(value(d) == d4(n) - d3(n) + (d5(n) - d6(n)));
            assert(value(d) == from_b(n).g);
            lemma_undone(value(s.e), value(d));
            lemma_best_bc(n, w);
            let bc = choose|bc: Seq<T>| #[trigger]
                crate::utils::triangle::is_offset(ops, c@, b@, bc)
                    && crate::utils::triangle::is_along(ops, b@, t, bc, foot.point@);
            assert(vector(value, bc) == minus(vc_, vb_));
            lemma_along(ops, b@, t, bc, foot.point@, value);
            lemma_edge_foot(va_, vb_, vc_, w);
            assert(v == 1 as real - w);
        },
        Region::Inside => {
            let regions = crate::utils::triangle::before(r);
            assert(regions[0] == Region::A && regions[1] == Region::B && regions[2] == Region::Ab);
            assert(regions[3] == Region::C && regions[4] == Region::Ac && regions[5] == Region::Bc);
            let i = lemma_fails(
                ops,
                crate::utils::triangle::conditions(s, zero, regions[0]),
                value,
            );
            let i = lemma_fails(
                ops,
                crate::utils::triangle::conditions(s, zero, regions[1]),
                value,
            );
            let i = lemma_fails(
                ops,
                crate::utils::triangle::conditions(s, zero, regions[2]),
                value,
            );
            let i = lemma_fails(
                ops,
                crate::utils::triangle::conditions(s, zero, regions[3]),
                value,
            );
            let i = lemma_fails(
                ops,
                crate::utils::triangle::conditions(s, zero, regions[4]),
                value,
            );
            let i = lemma_fails(
                ops,
                crate::utils::triangle::conditions(s, zero, regions[5]),
                value,
            );
            lemma_inside(n);
            lemma_inside_foot(ops, a, s, zero, one, foot, n, value);
            lemma_best_inside(n, v, w);
        },
    }
}

proof fn lemma_inside_foot<T, O: NearestOps<T>>(
    ops: &O,
    a: [T; 3],
    s: Bearing<T>,
    zero: T,
    one: T,
    foot: Foot<T>,
    n: Numbers,
    value: spec_fn(T) -> real,
)
    requires
        is_exact(ops, value),
        value(one) == 1 as real,
        is_proper(n),
        value(s.va) == va(n),
        value(s.vb) == vb(n),
        value(s.vc) == vc(n),
        crate::utils::triangle::is_placed(ops, a, a, a, s, zero, one, Region::Inside, foot),
    ensures
        value(foot.shares@[1]) * area(n) == vb(n),
        value(foot.shares@[2]) * area(n) == vc(n),
        value(foot.shares@[0]) == 1 as real - value(foot.shares@[1]) - value(foot.shares@[2]),
        vector(value, foot.point@) == point_at(
            vector(value, a@),
            vector(value, s.ab@),
            vector(value, s.ac@),
            value(foot.shares@[1]),
            value(foot.shares@[2]),
        ),
{
    let t = foot.shares@[1];
    let q = foot.shares@[2];
    let scale = choose|scale: T| #[trigger]
        crate::utils::triangle::is_scale(ops, one, s.va, s.vb, s.vc, scale)
            && crate::scalar::product_of(ops, s.vb, scale, t) && crate::scalar::product_of(
            ops,
            s.vc,
            scale,
            q,
        );
    let (x, d) = choose|x: T, d: T| #[trigger]
        crate::scalar::sum_of(ops, s.va, s.vb, x) && #[trigger] crate::scalar::sum_of(
            ops,
            x,
            s.vc,
            d,
        ) && crate::scalar::quotient_of(ops, one, d, scale);
    assert(value(d) == area(n));
    let k = value(scale);
    lemma_undone(1 as real, area(n));
    assert(k * area(n) == 1 as real);
    lemma_grouped(vb(n), k, area(n));
    lemma_grouped(vc(n), k, area(n));
    lemma_one(vb(n));
    lemma_one(vc(n));
    let m = choose|m: [T; 3]| #[trigger]
        crate::utils::triangle::is_along(ops, a@, t, s.ab@, m@)
            && crate::utils::triangle::is_along(ops, m@, q, s.ac@, foot.point@);
    lemma_along(ops, a@, t, s.ab@, m@, value);
    lemma_along(ops, m@, q, s.ac@, foot.point@, value);
}

/// In exact arithmetic the shares of the corners in the foot sum to 1 and are
/// not negative, and the foot is the mix of the corners by them.
pub proof fn law_foot_in_triangle<T, O: NearestOps<T>>(
    ops: &O,
    p: [T; 3],
    a: [T; 3],
    b: [T; 3],
    c: [T; 3],
    zero: T,
    one: T,
    foot: Foot<T>,
    value: spec_fn(T) -> real,
)
    requires
        is_exact(ops, value),
        value(zero) == 0 as real,
        value(one) == 1 as real,
        is_proper(
            numbers(vector(value, p@), vector(value, a@), vector(value, b@), vector(value, c@)),
        ),
        crate::utils::triangle::is_foot(ops, p, a, b, c, zero, one, foot),
    ensures
        value(foot.shares@[0]) + value(foot.shares@[1]) + value(foot.shares@[2]) == 1 as real,
        value(foot.shares@[0]) >= 0 as real,
        value(foot.shares@[1]) >= 0 as real,
        value(foot.shares@[2]) >= 0 as real,
        vector(value, foot.point@) == mix(
            vector(value, a@),
            vector(value, b@),
            vector(value, c@),
            value(foot.shares@[0]),
            value(foot.shares@[1]),
            value(foot.shares@[2]),
        ),
{
    let (s, r) = choose|s: Bearing<T>, r: Region|
        {
            &&& #[trigger] crate::utils::triangle::is_bearing(ops, p@, a@, b@, c@, s)
            &&& #[trigger] crate::utils::triangle::is_region(ops, s, zero, r)
            &&& crate::utils::triangle::is_placed(ops, a, b, c, s, zero, one, r, foot)
        };
    lemma_placed(ops, p, a, b, c, zero, one, s, r, foot, value);
    lemma_mix(
        vector(value, a@),
        vector(value, b@),
        vector(value, c@),
        value(foot.shares@[0]),
        value(foot.shares@[1]),
        value(foot.shares@[2]),
    );
}

/// In exact arithmetic no point of the triangle is nearer than the foot.
pub proof fn law_foot_is_nearest<T, O: NearestOps<T>>(
    ops: &O,
    p: [T; 3],
    a: [T; 3],
    b: [T; 3],
    c: [T; 3],
    zero: T,
    one: T,
    foot: Foot<T>,
    value: spec_fn(T) -> real,
    s: real,
    t: real,
    r: real,
)
    requires
        is_exact(ops, value),
        value(zero) == 0 as real,
        value(one) == 1 as real,
        is_proper(
            numbers(vector(value, p@), vector(value, a@), vector(value, b@), vector(value, c@)),
        ),
        crate::utils::triangle::is_foot(ops, p, a, b, c, zero, one, foot),
        s >= 0 as real,
        t >= 0 as real,
        r >= 0 as real,
        s + t + r == 1 as real,
    ensures
        square(vector(value, p@), vector(value, foot.point@)) <= square(
            vector(value, p@),
            mix(vector(value, a@), vector(value, b@), vector(value, c@), s, t, r),
        ),
{
    let (bearing, region) = choose|s: Bearing<T>, r: Region|
        {
            &&& #[trigger] crate::utils::triangle::is_bearing(ops, p@, a@, b@, c@, s)
            &&& #[trigger] crate::utils::triangle::is_region(ops, s, zero, r)
            &&& crate::utils::triangle::is_placed(ops, a, b, c, s, zero, one, r, foot)
        };
    lemma_placed(ops, p, a, b, c, zero, one, bearing, region, foot, value);
    let va_ = vector(value, a@);
    let vb_ = vector(value, b@);
    let vc_ = vector(value, c@);
    lemma_mix(va_, vb_, vc_, s, t, r);
    lemma_nearest(
        vector(value, p@),
        va_,
        minus(vb_, va_),
        minus(vc_, va_),
        value(foot.shares@[1]),
        value(foot.shares@[2]),
        t,
        r,
    );
}

} // verus!
