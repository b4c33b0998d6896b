//! In exact arithmetic the own axis of a bone leads from its head to its tail.
use vstd::prelude::*;

use crate::kinematics::bone_poses::{BoneSteps, EndpointOps};
use crate::models::body::{BodySources, BuildSteps, Measures, Model};
use crate::models::full_model::ModelOptions;
use crate::models::motions::Shift;
use crate::phenotype::PhenotypeAnchors;
use crate::rotation::{AngleOps, TurnSteps};
use crate::scalar::{Arithmetic, Division, Signs};
use crate::utils::mean::MeanOps;

verus! {

proof fn lemma_spread(m: real, n: real, p: real)
    ensures
        (m - n) * p == m * p - n * p,
{
    assert((m - n) * p == m * p - n * p) by (nonlinear_arith);
}

proof fn lemma_swapped(a: real, b: real, p: real)
    ensures
        (a * b) * p == (a * p) * b,
{
    assert((a * b) * p == (a * p) * b) by (nonlinear_arith);
}

/// A product with a positive factor is nothing only where the other is.
proof fn lemma_nothing(p: real, q: real)
    requires
        p * q == 0 as real,
        q > 0 as real,
    ensures
        p == 0 as real,
{
    assert(p == 0 as real) by (nonlinear_arith)
        requires
            p * q == 0 as real,
            q > 0 as real,
    ;
}

/// Numbers that are not negative and have one square are one.
proof fn lemma_same_root(l: real, t: real)
    requires
        l * l == t * t,
        l >= 0 as real,
        t > 0 as real,
    ensures
        l == t,
{
    let p = l - t;
    let q = l + t;
    let (a, b) = (l * l, t * t);
    assert(p * q == a - b) by (nonlinear_arith)
        requires
            p == l - t,
            q == l + t,
            a == l * l,
            b == t * t,
    ;
    lemma_nothing(p, q);
}

/// The product across stands at right angles to its second factor.
proof fn lemma_across(u: Shift, v: Shift)
    ensures
        crate::models::motions::dot(crate::models::turn_laws::crossed(u, v), v) == 0 as real,
{
    let (a, b, c) = (u.x, u.y, u.z);
    let (p, q, r) = (v.x, v.y, v.z);
    lemma_spread(b * r, c * q, p);
    lemma_spread(c * p, a * r, q);
    lemma_spread(a * q, b * p, r);
    lemma_swapped(b, r, p);
    lemma_swapped(c, q, p);
    lemma_swapped(a, r, q);
}

/// The product across taken twice with a unit vector.
proof fn lemma_across_twice(u: Shift, v: Shift)
    requires
        crate::models::motions::dot(v, v) == 1 as real,
    ensures
        crate::models::turn_laws::crossed(crate::models::turn_laws::crossed(u, v), v)
            == crate::models::motions::plus(
            crate::models::turn_laws::scaled(crate::models::motions::dot(u, v), v),
            crate::models::motions::minus(u),
        ),
{
    lemma_across_coordinate(u.x, u.y, u.z, v.x, v.y, v.z);
    lemma_across_coordinate(u.y, u.z, u.x, v.y, v.z, v.x);
    lemma_across_coordinate(u.z, u.x, u.y, v.z, v.x, v.y);
}

proof fn lemma_across_coordinate(a: real, b: real, c: real, p: real, q: real, r: real)
    requires
        p * p + q * q + r * r == 1 as real,
    ensures
        (c * p - a * r) * r - (a * q - b * p) * q == (a * p + b * q + c * r) * p - a,
{
    let (ap, bq, cr) = (a * p, b * q, c * r);
    lemma_spread(c * p, a * r, r);
    lemma_spread(a * q, b * p, q);
    lemma_swapped(c, p, r);
    lemma_swapped(b, p, q);
    assert((ap + bq + cr) * p == ap * p + bq * p + cr * p) by (nonlinear_arith);
    lemma_squared(a, p);
    lemma_squared(a, q);
    lemma_squared(a, r);
    let (pp, qq, rr) = (p * p, q * q, r * r);
    assert(a * pp + a * qq + a * rr == a) by {
        let t = pp + qq + rr;
        assert(a * t == a * pp + a * qq + a * rr) by (nonlinear_arith)
            requires
                t == pp + qq + rr,
        ;
        assert(a * t == a) by (nonlinear_arith)
            requires
                t == 1 as real,
        ;
    }
}

proof fn lemma_squared(a: real, p: real)
    ensures
        (a * p) * p == a * (p * p),
{
    assert((a * p) * p == a * (p * p)) by (nonlinear_arith);
}

proof fn lemma_triple(u: Shift, v: Shift, w: Shift)
    ensures
        crate::models::motions::dot(crate::models::turn_laws::crossed(u, v), w)
            == crate::models::motions::dot(
            u,
            crate::models::motions::minus(crate::models::turn_laws::crossed(w, v)),
        ),
{
    let (a, b, c) = (u.x, u.y, u.z);
    let (p, q, r) = (v.x, v.y, v.z);
    let (l, m, n) = (w.x, w.y, w.z);
    lemma_spread(b * r, c * q, l);
    lemma_spread(c * p, a * r, m);
    lemma_spread(a * q, b * p, n);
    lemma_spread_back(a, m, r, n, q);
    lemma_spread_back(b, n, p, l, r);
    lemma_spread_back(c, l, q, m, p);
}

proof fn lemma_spread_back(a: real, m: real, r: real, n: real, q: real)
    ensures
        a * -(m * r - n * q) == (a * q) * n - (a * r) * m,
{
    let (x, y) = (m * r, n * q);
    assert(a * -(x - y) == a * y - a * x) by (nonlinear_arith);
    assert(a * (n * q) == (a * q) * n) by (nonlinear_arith);
    assert(a * (m * r) == (a * r) * m) by (nonlinear_arith);
}

/// The square of the sine and that of the cosine of two unit vectors.
pub proof fn lemma_sine_square(u: Shift, v: Shift)
    requires
        crate::models::motions::dot(u, u) == 1 as real,
        crate::models::motions::dot(v, v) == 1 as real,
    ensures
        ({
            let x = crate::models::turn_laws::crossed(u, v);
            let c = crate::models::motions::dot(u, v);
            crate::models::motions::dot(x, x) == 1 as real - c * c
        }),
{
    let x = crate::models::turn_laws::crossed(u, v);
    let c = crate::models::motions::dot(u, v);
    lemma_triple(u, v, x);
    lemma_across_twice(u, v);
    let w = crate::models::turn_laws::crossed(x, v);
    crate::models::motions::lemma_dot_minus(u, w);
    crate::models::motions::lemma_dot_plus(
        u,
        crate::models::turn_laws::scaled(c, v),
        crate::models::motions::minus(u),
    );
    crate::models::motions::lemma_dot_minus(u, u);
    crate::models::motions::lemma_dot_swapped(u, crate::models::turn_laws::scaled(c, v));
    crate::models::turn_laws::lemma_scaled_dot(c, v, u);
    crate::models::motions::lemma_dot_swapped(v, u);
}

/// A vector without length is nothing.
pub proof fn lemma_no_length(v: Shift)
    requires
        crate::models::motions::dot(v, v) == 0 as real,
    ensures
        v == crate::models::motions::origin(),
{
    lemma_square(v.x);
    lemma_square(v.y);
    lemma_square(v.z);
}

proof fn lemma_square(x: real)
    ensures
        x * x >= 0 as real,
        x * x == 0 as real ==> x == 0 as real,
{
    assert(x * x >= 0 as real) by (nonlinear_arith);
    if x * x == 0 as real {
        assert(x == 0 as real) by (nonlinear_arith)
            requires
                x * x == 0 as real,
        ;
    }
}

/// Two unit vectors with cosine 1 are one.
pub proof fn lemma_same_direction(u: Shift, v: Shift)
    requires
        crate::models::motions::dot(u, u) == 1 as real,
        crate::models::motions::dot(v, v) == 1 as real,
        crate::models::motions::dot(u, v) == 1 as real,
    ensures
        u == v,
{
    let n = crate::models::motions::minus(v);
    let d = crate::models::motions::plus(u, n);
    crate::models::motions::lemma_dot_plus(d, u, n);
    crate::models::motions::lemma_dot_minus(d, v);
    crate::models::motions::lemma_dot_swapped(d, u);
    crate::models::motions::lemma_dot_swapped(d, v);
    crate::models::motions::lemma_dot_plus(u, u, n);
    crate::models::motions::lemma_dot_plus(v, u, n);
    crate::models::motions::lemma_dot_minus(u, v);
    crate::models::motions::lemma_dot_minus(v, v);
    crate::models::motions::lemma_dot_swapped(u, v);
    lemma_no_length(d);
}

/// The angle of a point on the upper half of the unit circle has the coordinates of
/// the point as sine and cosine, and is more than nothing above the first axis; what
/// is 1 is near it, and what is nothing is not.
pub open spec fn arcs_exactly<T, O: EndpointOps<T>>(ops: &O, value: spec_fn(T) -> real) -> bool {
    &&& forall|h: T, w: T, angle: T| #[trigger]
        call_ensures(O::arc, (ops, h, w), angle) && value(h) > 0 as real ==> value(angle)
            > 0 as real
    &&& forall|h: T, w: T, angle: T, again: T, c: T, s: T|
        {
            &&& #[trigger] call_ensures(O::arc, (ops, h, w), angle)
            &&& #[trigger] call_ensures(O::cosine, (ops, again), c)
            &&& #[trigger] call_ensures(O::sine, (ops, again), s)
            &&& value(again) == value(angle)
            &&& value(h) >= 0 as real
            &&& value(h) * value(h) + value(w) * value(w) == 1 as real
        } ==> value(c) == value(w) && value(s) == value(h)
    &&& forall|a: T, r: bool| #[trigger]
        call_ensures(O::near_one, (ops, a), r) ==> (value(a) == 1 as real ==> r) && (value(a)
            == 0 as real ==> !r)
}

pub proof fn lemma_cross_seen<T, O: Arithmetic<T>>(
    ops: &O,
    a: Seq<T>,
    b: Seq<T>,
    r: Seq<T>,
    value: spec_fn(T) -> real,
)
    requires
        crate::scalar::is_exact(ops, value),
        crate::kinematics::bone_poses::is_cross(ops, a, b, r),
    ensures
        crate::models::motions::row_seen(value, r) == crate::models::turn_laws::crossed(
            crate::models::motions::row_seen(value, a),
            crate::models::motions::row_seen(value, b),
        ),
{
    lemma_minor(ops, a[1], b[2], a[2], b[1], r[0], value);
    lemma_minor(ops, a[2], b[0], a[0], b[2], r[1], value);
    lemma_minor(ops, a[0], b[1], a[1], b[0], r[2], value);
}

pub proof fn lemma_minor<T, O: Arithmetic<T>>(
    ops: &O,
    a: T,
    b: T,
    c: T,
    d: T,
    r: T,
    value: spec_fn(T) -> real,
)
    requires
        crate::scalar::is_exact(ops, value),
        crate::rotation::is_minor(ops, a, b, c, d, r),
    ensures
        value(r) == value(a) * value(b) - value(c) * value(d),
{
    let terms = seq![crate::rotation::added(a, b), crate::rotation::taken(c, d)];
    crate::rotation_laws::law_exact_signed_sum(ops, terms, r, value);
    let first = terms.drop_last();
    assert(first.len() == 1 && first[0] == terms[0]);
    assert(terms.last() == terms[1]);
    assert(crate::rotation_laws::exact_signed_sum(value, first) == value(a) * value(b));
    assert(crate::rotation_laws::exact_signed_sum(value, terms)
        == crate::rotation_laws::exact_signed_sum(value, first) + crate::rotation_laws::signed(
        value,
        terms[1],
    ));
}

pub proof fn lemma_inner<T, O: Arithmetic<T>>(
    ops: &O,
    a: Seq<T>,
    b: Seq<T>,
    r: T,
    value: spec_fn(T) -> real,
)
    requires
        crate::scalar::is_exact(ops, value),
        crate::rotation::is_inner(ops, a, b, r),
    ensures
        value(r) == crate::models::motions::dot(
            crate::models::motions::row_seen(value, a),
            crate::models::motions::row_seen(value, b),
        ),
{
    let terms = crate::rotation::inner_terms(a, b);
    crate::rotation_laws::law_exact_signed_sum(ops, terms, r, value);
    crate::rotation_laws::lemma_three_terms(value, terms);
}

/// The length of a vector that is `t` times a unit vector, for a positive `t`.
proof fn lemma_length_of_multiple(t: real, k: Shift, l: real)
    requires
        crate::models::motions::dot(k, k) == 1 as real,
        t > 0 as real,
        l >= 0 as real,
        l * l == crate::models::motions::dot(
            crate::models::turn_laws::scaled(-t, k),
            crate::models::turn_laws::scaled(-t, k),
        ),
    ensures
        l == t,
{
    crate::models::turn_laws::lemma_dot_scaled(-t, k, -t, k);
    let n = -t;
    assert((n * n) * (1 as real) == t * t) by (nonlinear_arith)
        requires
            n == -t,
    ;
    lemma_same_root(l, t);
}

/// Dividing `-t` times a vector by `t` turns it over.
proof fn lemma_divided_back(t: real, x: real)
    requires
        t > 0 as real,
    ensures
        (-(x * t)) / t == -x,
{
    let d = (-(x * t)) / t;
    crate::models::turn_laws::lemma_over(-(x * t), t);
    assert((d + x) * t == d * t + x * t) by (nonlinear_arith);
    lemma_nothing(d + x, t);
}

/// A turn about the axis that leads from a unit vector `y` to another one `u`, by
/// the angle between them, takes the first to the second.
proof fn lemma_turned_to(u: Shift, y: Shift, x: Shift, h: real, k: Shift)
    requires
        crate::models::motions::dot(u, u) == 1 as real,
        crate::models::motions::dot(y, y) == 1 as real,
        x == crate::models::turn_laws::crossed(u, y),
        h > 0 as real,
        crate::models::turn_laws::scaled(h, k) == x,
    ensures
        crate::models::motions::applied(
            crate::models::turn_laws::rodrigues(
                crate::models::motions::dot(u, y),
                h,
                crate::models::motions::minus(k),
            ),
            y,
        ) == u,
{
    let c = crate::models::motions::dot(u, y);
    let n = crate::models::motions::minus(k);
    lemma_across(u, y);
    crate::models::turn_laws::lemma_scaled_dot(h, k, y);
    let d = crate::models::motions::dot(k, y);
    assert(h * d == d * h) by (nonlinear_arith);
    lemma_nothing(d, h);
    crate::models::motions::lemma_dot_swapped(n, y);
    crate::models::motions::lemma_dot_minus(y, k);
    crate::models::motions::lemma_dot_swapped(y, k);
    crate::models::turn_laws::lemma_rodrigues_applied(c, h, n, y);
    lemma_across_twice(u, y);
    let w = crate::models::turn_laws::crossed(x, y);
    let z = crate::models::turn_laws::crossed(n, y);
    lemma_across_scaled(h, k.y, y.z, k.z, y.y);
    lemma_across_scaled(h, k.z, y.x, k.x, y.z);
    lemma_across_scaled(h, k.x, y.y, k.y, y.x);
    assert(h * z.x == -w.x && h * z.y == -w.y && h * z.z == -w.z);
}

proof fn lemma_across_scaled(h: real, a: real, b: real, c: real, d: real)
    ensures
        h * (-a * b - -c * d) == -((h * a) * b - (h * c) * d),
{
    assert(-a * b == -(a * b)) by (nonlinear_arith);
    assert(-c * d == -(c * d)) by (nonlinear_arith);
    assert((h * a) * b == h * (a * b)) by (nonlinear_arith);
    assert((h * c) * d == h * (c * d)) by (nonlinear_arith);
    let (x, y) = (a * b, c * d);
    assert(h * (-x - -y) == -(h * x - h * y)) by (nonlinear_arith);
}

/// `a` is the direction from `from` to `to`.
pub open spec fn points_along(a: Shift, from: Shift, to: Shift) -> bool {
    &&& crate::models::motions::dot(a, a) == 1 as real
    &&& exists|length: real|
        length > 0 as real && #[trigger] crate::models::turn_laws::scaled(length, a)
            == crate::models::motions::plus(to, crate::models::motions::minus(from))
}

/// What is known of the steps to the pose of a bone with some length: the direction
/// `u` of the bone is a unit vector.
pub proof fn lemma_direction<T, O: EndpointOps<T>>(
    ops: &O,
    head: [T; 3],
    tail: [T; 3],
    s: BoneSteps<T>,
    value: spec_fn(T) -> real,
)
    requires
        crate::scalar::is_exact(ops, value),
        crate::models::turn_laws::turns_exactly(ops, value),
        crate::scalar::difference_of(ops, tail@[0], head@[0], s.along@[0]),
        crate::scalar::difference_of(ops, tail@[1], head@[1], s.along@[1]),
        crate::scalar::difference_of(ops, tail@[2], head@[2], s.along@[2]),
        crate::scalar::length_of(ops, s.along, s.length),
        crate::rotation::is_divided(ops, s.along@, s.length, s.unit@),
        crate::models::motions::row_seen(value, head@) != crate::models::motions::row_seen(
            value,
            tail@,
        ),
    ensures
        points_along(
            crate::models::motions::row_seen(value, s.unit@),
            crate::models::motions::row_seen(value, head@),
            crate::models::motions::row_seen(value, tail@),
        ),
{
    let from = crate::models::motions::row_seen(value, head@);
    let to = crate::models::motions::row_seen(value, tail@);
    let along = crate::models::motions::row_seen(value, s.along@);
    assert(along == crate::models::motions::plus(to, crate::models::motions::minus(from)));
    let l = value(s.length);
    if l == 0 as real {
        assert(l * l == 0 as real) by (nonlinear_arith)
            requires
                l == 0 as real,
        ;
        lemma_no_length(along);
        assert(from == to);
    }
    crate::models::turn_laws::lemma_unit(ops, s.along, s.length, s.length, s.unit@, value);
    assert(crate::models::turn_laws::scaled(
        l,
        crate::models::motions::row_seen(value, s.unit@),
    ) == along);
}

/// The turn of a bone takes its own axis to its direction.
pub proof fn lemma_turn_takes_axis<T, O: EndpointOps<T>>(
    ops: &O,
    y_axis: [T; 3],
    fallback: [[T; 3]; 3],
    zero: T,
    one: T,
    s: BoneSteps<T>,
    value: spec_fn(T) -> real,
)
    requires
        crate::scalar::is_exact(ops, value),
        crate::scalar::tells_signs(ops, value),
        crate::models::turn_laws::turns_exactly(ops, value),
        arcs_exactly(ops, value),
        value(zero) == 0 as real,
        value(one) == 1 as real,
        ({
            let y = crate::models::motions::row_seen(value, y_axis@);
            let u = crate::models::motions::row_seen(value, s.unit@);
            &&& crate::models::motions::dot(y, y) == 1 as real
            &&& crate::models::motions::dot(u, u) == 1 as real
            &&& crate::models::motions::applied(
                crate::models::turn_laws::turn_of(value, crate::rotation::rows3(fallback)),
                y,
            ) == crate::models::motions::minus(y)
        }),
        exists|head: [T; 3], tail: [T; 3], roll: [[T; 3]; 3]| #[trigger]
            crate::kinematics::bone_poses::are_bone_steps(
                ops,
                head,
                tail,
                roll,
                y_axis,
                fallback,
                zero,
                one,
                s,
            ),
    ensures
        crate::models::motions::applied(
            crate::models::turn_laws::turn_of(value, crate::rotation::rows3(s.turn)),
            crate::models::motions::row_seen(value, y_axis@),
        ) == crate::models::motions::row_seen(value, s.unit@),
        crate::models::motions::applied(
            crate::models::turn_laws::turn_of(value, crate::rotation::rows3(s.turn)),
            crate::models::motions::row_seen(value, s.cross@),
        ) == crate::models::motions::row_seen(value, s.cross@),
        crate::models::motions::row_seen(value, s.cross@) == crate::models::turn_laws::crossed(
            crate::models::motions::row_seen(value, s.unit@),
            crate::models::motions::row_seen(value, y_axis@),
        ),
{
    let y = crate::models::motions::row_seen(value, y_axis@);
    let u = crate::models::motions::row_seen(value, s.unit@);
    let x = crate::models::motions::row_seen(value, s.cross@);
    let k = crate::models::motions::row_seen(value, s.axis@);
    let turn = crate::rotation::rows3(s.turn);
    lemma_cross_seen(ops, s.unit@, y_axis@, s.cross@, value);
    lemma_inner(ops, s.unit@, y_axis@, s.cosine, value);
    lemma_inner(ops, s.axis@, s.axis@, s.square, value);
    lemma_sine_square(u, y);
    let c = value(s.cosine);
    let h = value(s.sine);
    assert(h * h + c * c == 1 as real);
    if h > 0 as real {
        crate::models::turn_laws::lemma_unit(ops, s.cross, s.sine, s.divisor, s.axis@, value);
        assert(!call_ensures(O::near_one, (ops, s.square), false));
        assert(crate::rotation::is_rotation_of(ops, s.rotvec, zero, one, turn));
        let t = choose|t: TurnSteps<T>| #[trigger]
            crate::rotation::are_turn_steps(ops, s.rotvec, zero, one, t, turn);
        let angle = value(s.angle);
        let v = crate::models::motions::row_seen(value, s.rotvec@);
        lemma_turned_coordinate(ops, s.axis@[0], s.angle, s.rotvec@[0], value);
        lemma_turned_coordinate(ops, s.axis@[1], s.angle, s.rotvec@[1], value);
        lemma_turned_coordinate(ops, s.axis@[2], s.angle, s.rotvec@[2], value);
        assert(v == crate::models::turn_laws::scaled(-angle, k)) by {
            lemma_opposite(angle, k.x);
            lemma_opposite(angle, k.y);
            lemma_opposite(angle, k.z);
        }
        lemma_length_of_multiple(angle, k, value(t.angle));
        assert(value(t.divisor) == angle);
        lemma_divided_back(angle, k.x);
        lemma_divided_back(angle, k.y);
        lemma_divided_back(angle, k.z);
        let n = crate::models::motions::row_seen(value, t.axis@);
        assert(n == crate::models::motions::minus(k));
        assert(value(t.cosine) == c && value(t.sine) == h);
        crate::models::turn_laws::lemma_turn_seen(
            ops,
            t.axis@,
            t.cosine,
            t.sine,
            zero,
            one,
            turn,
            value,
        );
        lemma_turned_to(u, y, x, h, k);
        crate::models::motions::lemma_dot_minus(n, k);
        crate::models::motions::lemma_dot_swapped(n, k);
        crate::models::motions::lemma_dot_minus(k, k);
        assert(x == crate::models::turn_laws::scaled(-h, n)) by {
            lemma_both_signs(h, k.x);
            lemma_both_signs(h, k.y);
            lemma_both_signs(h, k.z);
        }
        crate::models::turn_laws::lemma_rodrigues_keeps_axis(c, h, n, -h);
    } else {
        assert(h == 0 as real);
        assert(h * h == 0 as real) by (nonlinear_arith)
            requires
                h == 0 as real,
        ;
        lemma_no_length(x);
        lemma_applied_to_nothing(crate::models::turn_laws::turn_of(value, turn));
        let d = value(s.divisor);
        crate::models::turn_laws::lemma_over(0 as real, d);
        lemma_nothing(0 as real / d, d);
        assert(k == crate::models::motions::origin());
        assert(value(s.square) == 0 as real) by {
            crate::models::motions::lemma_dot_units(k);
        }
        assert(!call_ensures(O::near_one, (ops, s.square), true));
        if c > 0 as real {
            lemma_one_square();
            lemma_same_root(c, 1 as real);
            lemma_same_direction(u, y);
            assert(turn == crate::kinematics::bone_poses::unturned(zero, one));
            let e = crate::models::motions::straight();
            assert(crate::models::turn_laws::turn_of(value, turn) == e);
            crate::models::motions::lemma_dot_units(y);
        } else {
            lemma_one_square();
            let m = -c;
            assert(m * m == c * c) by (nonlinear_arith)
                requires
                    m == -c,
            ;
            lemma_same_root(m, 1 as real);
            let n = crate::models::motions::minus(y);
            crate::models::motions::lemma_dot_minus(u, y);
            crate::models::motions::lemma_dot_minus(n, y);
            crate::models::motions::lemma_dot_swapped(n, y);
            crate::models::motions::lemma_dot_minus(y, y);
            lemma_same_direction(u, n);
            assert(s.turn == fallback);
        }
    }
}

proof fn lemma_both_signs(h: real, x: real)
    ensures
        -h * -x == h * x,
{
    assert(-h * -x == h * x) by (nonlinear_arith);
}

proof fn lemma_applied_to_nothing(a: crate::models::motions::Turn)
    ensures
        crate::models::motions::applied(a, crate::models::motions::origin())
            == crate::models::motions::origin(),
{
    lemma_dot_nothing(a.x);
    lemma_dot_nothing(a.y);
    lemma_dot_nothing(a.z);
}

proof fn lemma_dot_nothing(a: Shift)
    ensures
        crate::models::motions::dot(a, crate::models::motions::origin()) == 0 as real,
{
    let (x, y, z, o) = (a.x, a.y, a.z, 0 as real);
    assert(x * o == o && y * o == o && z * o == o) by (nonlinear_arith)
        requires
            o == 0 as real,
    ;
}

proof fn lemma_one_square()
    ensures
        (1 as real) * (1 as real) == 1 as real,
{
    let e = 1 as real;
    assert(e * e == e) by (nonlinear_arith)
        requires
            e == 1 as real,
    ;
}

proof fn lemma_opposite(t: real, x: real)
    ensures
        -(x * t) == -t * x,
{
    assert(-(x * t) == -t * x) by (nonlinear_arith);
}

proof fn lemma_turned_coordinate<T, O: Arithmetic<T>>(
    ops: &O,
    a: T,
    t: T,
    r: T,
    value: spec_fn(T) -> real,
)
    requires
        crate::scalar::is_exact(ops, value),
        crate::kinematics::bone_poses::is_turned_coordinate(ops, a, t, r),
    ensures
        value(r) == -(value(a) * value(t)),
{
    let m = choose|m: T| #[trigger]
        crate::scalar::product_of(ops, a, t, m) && crate::scalar::negative_of(ops, m, r);
}

/// In exact arithmetic the rest pose of a bone takes its own axis to the direction
/// from its head to its tail, through the direction along the own axis too, where
/// the roll turns about that axis and the fallback turns it over.
pub proof fn law_bones_point_to_their_tails<T, O: EndpointOps<T>>(
    ops: &O,
    head: [T; 3],
    tail: [T; 3],
    roll: [[T; 3]; 3],
    y_axis: [T; 3],
    fallback: [[T; 3]; 3],
    zero: T,
    one: T,
    pose: Seq<Seq<T>>,
    value: spec_fn(T) -> real,
)
    requires
        crate::scalar::is_exact(ops, value),
        crate::scalar::tells_signs(ops, value),
        crate::models::turn_laws::turns_exactly(ops, value),
        arcs_exactly(ops, value),
        value(zero) == 0 as real,
        value(one) == 1 as real,
        crate::models::motions::row_seen(value, head@) != crate::models::motions::row_seen(
            value,
            tail@,
        ),
        ({
            let y = crate::models::motions::row_seen(value, y_axis@);
            &&& crate::models::motions::dot(y, y) == 1 as real
            &&& crate::models::motions::applied(
                crate::models::turn_laws::turn_of(value, crate::rotation::rows3(roll)),
                y,
            ) == y
            &&& crate::models::motions::applied(
                crate::models::turn_laws::turn_of(value, crate::rotation::rows3(fallback)),
                y,
            ) == crate::models::motions::minus(y)
        }),
        crate::kinematics::bone_poses::is_bone_pose(
            ops,
            head,
            tail,
            roll,
            y_axis,
            fallback,
            zero,
            one,
            pose,
        ),
    ensures
        points_along(
            crate::models::motions::applied(
                crate::models::motions::motion_of(value, pose).turn,
                crate::models::motions::row_seen(value, y_axis@),
            ),
            crate::models::motions::row_seen(value, head@),
            crate::models::motions::row_seen(value, tail@),
        ),
        crate::models::motions::motion_of(value, pose).shift == crate::models::motions::row_seen(
            value,
            head@,
        ),
{
    let s = choose|s: BoneSteps<T>| #[trigger]
        crate::kinematics::bone_poses::are_bone_steps(
            ops,
            head,
            tail,
            roll,
            y_axis,
            fallback,
            zero,
            one,
            s,
        ) && pose =~~= crate::rotation::homogeneous(
            crate::rotation::rows3(s.rotation),
            head@,
            zero,
            one,
        );
    let turn = crate::rotation::rows3(s.turn);
    let spun = crate::rotation::rows3(roll);
    let rotation = crate::rotation::rows3(s.rotation);
    assert(pose == crate::rotation::homogeneous(rotation, head@, zero, one));
    lemma_direction(ops, head, tail, s, value);
    lemma_turn_takes_axis(ops, y_axis, fallback, zero, one, s, value);
    crate::models::turn_laws::law_exact_product_turn(ops, turn, spun, rotation, value);
    crate::models::motions::lemma_applied_twice(
        crate::models::turn_laws::turn_of(value, turn),
        crate::models::turn_laws::turn_of(value, spun),
        crate::models::motions::row_seen(value, y_axis@),
    );
    assert(pose[0] == rotation[0].push(head@[0]));
    assert(pose[1] == rotation[1].push(head@[1]));
    assert(pose[2] == rotation[2].push(head@[2]));
    assert(crate::models::motions::motion_of(value, pose).turn
        == crate::models::turn_laws::turn_of(value, rotation));
}

/// The rolls turn bones about their own axis.
pub open spec fn rolls_keep_axis<T>(value: spec_fn(T) -> real, rolls: Seq<[[T; 3]; 3]>) -> bool {
    forall|j: int|
        0 <= j < rolls.len() ==> crate::models::motions::applied(
            crate::models::turn_laws::turn_of(value, crate::rotation::rows3(#[trigger] rolls[j])),
            crate::models::motions::straight().y,
        ) == crate::models::motions::straight().y
}

/// The rolls of a model that was built turn its bones about their own axis.
pub proof fn law_built_rolls_keep_axis<
    T: Copy,
    O: Division<T> + Signs<T> + MeanOps<T> + AngleOps<T>,
>(
    ops: &O,
    measures: Measures<T>,
    opts: ModelOptions,
    sources: BodySources<T>,
    anchors: PhenotypeAnchors<T>,
    model: Model<T>,
    value: spec_fn(T) -> real,
)
    requires
        crate::models::body::build_outcome(ops, measures, opts, sources, anchors, Ok(model)),
        value(measures.zero) == 0 as real,
        value(measures.one) == 1 as real,
    ensures
        rolls_keep_axis(value, model.bone_rolls_rotmat@),
{
    let steps = choose|s: BuildSteps<T>| #[trigger]
        crate::models::body::is_model(ops, measures, opts, sources, anchors, s, model);
    let rolls = model.bone_rolls_rotmat@;
    let (zero, one) = (measures.zero, measures.one);
    assert forall|j: int| 0 <= j < rolls.len() implies crate::models::motions::applied(
        crate::models::turn_laws::turn_of(value, crate::rotation::rows3(#[trigger] rolls[j])),
        crate::models::motions::straight().y,
    ) == crate::models::motions::straight().y by {
        let angle = model.figure.bone_rolls@[j];
        assert(crate::models::body::is_roll(ops, zero, one, angle, rolls[j]));
        let (c, s, n) = choose|c: T, s: T, n: T|
            {
                &&& #[trigger] call_ensures(O::cosine, (ops, angle), c)
                &&& #[trigger] call_ensures(O::sine, (ops, angle), s)
                &&& #[trigger] crate::scalar::negative_of(ops, s, n)
                &&& crate::rotation::rows3(rolls[j]) =~~= crate::rotation::euler_entries(
                    'y',
                    c,
                    s,
                    n,
                    zero,
                    one,
                )->0
            };
        let rows = crate::rotation::rows3(rolls[j]);
        assert(rows == crate::rotation::euler_entries('y', c, s, n, zero, one)->0);
        let t = crate::models::turn_laws::turn_of(value, rows);
        crate::models::motions::lemma_dot_units(t.x);
        crate::models::motions::lemma_dot_units(t.y);
        crate::models::motions::lemma_dot_units(t.z);
        assert(t.x.y == 0 as real && t.y.y == 1 as real && t.z.y == 0 as real);
    }
}

/// In exact arithmetic every bone of a skeleton at rest points with its second axis
/// from its head to its tail, and stands at its head.
pub proof fn law_rest_bones_point_to_their_tails<T, O: EndpointOps<T>>(
    ops: &O,
    zero: T,
    one: T,
    rolls: Seq<[[T; 3]; 3]>,
    heads: Seq<[T; 3]>,
    tails: Seq<[T; 3]>,
    rest: Seq<[[T; 4]; 4]>,
    value: spec_fn(T) -> real,
    i: int,
)
    requires
        crate::scalar::is_exact(ops, value),
        crate::scalar::tells_signs(ops, value),
        crate::models::turn_laws::turns_exactly(ops, value),
        arcs_exactly(ops, value),
        value(zero) == 0 as real,
        value(one) == 1 as real,
        rolls_keep_axis(value, rolls),
        crate::models::forward::are_rest_poses(ops, zero, one, rolls, heads, tails, rest),
        0 <= i < rest.len(),
        i < rolls.len(),
        crate::models::motions::row_seen(value, heads[i]@) != crate::models::motions::row_seen(
            value,
            tails[i]@,
        ),
    ensures
        points_along(
            crate::models::motions::applied(
                crate::models::motions::motion_of(value, crate::rotation::rows4(rest[i])).turn,
                crate::models::motions::straight().y,
            ),
            crate::models::motions::row_seen(value, heads[i]@),
            crate::models::motions::row_seen(value, tails[i]@),
        ),
        crate::models::motions::motion_of(value, crate::rotation::rows4(rest[i])).shift
            == crate::models::motions::row_seen(value, heads[i]@),
{
    let (axis, over) = choose|axis: [T; 3], over: [[T; 3]; 3]|
        {
            &&& #[trigger] crate::models::forward::own_axis(zero, one, axis)
            &&& #[trigger] crate::models::forward::is_turned_over(ops, zero, one, over)
            &&& rest.len() == heads.len()
            &&& forall|i: int|
                0 <= i < rest.len() ==> crate::kinematics::bone_poses::is_bone_pose(
                    ops,
                    heads[i],
                    tails[i],
                    rolls[i],
                    axis,
                    over,
                    zero,
                    one,
                    crate::rotation::rows4(#[trigger] rest[i]),
                )
        };
    let y = crate::models::motions::straight().y;
    assert(crate::models::motions::row_seen(value, axis@) == y);
    crate::models::motions::lemma_dot_units(y);
    let n = choose|n: T| #[trigger]
        crate::scalar::negative_of(ops, one, n) && crate::rotation::rows3(over) =~~= seq![
            seq![one, zero, zero],
            seq![zero, n, zero],
            seq![zero, zero, n],
        ];
    let rows = crate::rotation::rows3(over);
    assert(rows == seq![seq![one, zero, zero], seq![zero, n, zero], seq![zero, zero, n]]);
    let t = crate::models::turn_laws::turn_of(value, rows);
    crate::models::motions::lemma_dot_units(t.x);
    crate::models::motions::lemma_dot_units(t.y);
    crate::models::motions::lemma_dot_units(t.z);
    assert(crate::models::motions::applied(t, y) == crate::models::motions::minus(y));
    assert(crate::rotation::rows4(rest[i]) == crate::rotation::rows4(rest[i]));
    law_bones_point_to_their_tails(
        ops,
        heads[i],
        tails[i],
        rolls[i],
        axis,
        over,
        zero,
        one,
        crate::rotation::rows4(rest[i]),
        value,
    );
}

} // verus!
