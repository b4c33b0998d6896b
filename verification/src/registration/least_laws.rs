//! In exact arithmetic no rigid motion fits better than the one that a registration
//! finds.
use vstd::prelude::*;

use crate::models::motions::{Shift, Turn};
use crate::registration::{RegistrationOps, Rigid, Steps};
use crate::rotation::SignedProduct;
use crate::scalar::Arithmetic;

verus! {

/// The sum of numbers.
pub open spec fn total(s: Seq<real>) -> real
    decreases s.len(),
{
    if s.len() == 0 {
        0 as real
    } else {
        total(s.drop_last()) + s.last()
    }
}

proof fn lemma_one_more(a: real, s: real, x: real)
    ensures
        a * (s + x) == a * s + a * x,
        a * 0 as real == 0 as real,
{
    assert(a * (s + x) == a * s + a * x) by (nonlinear_arith);
    let o = 0 as real;
    assert(a * o == o) by (nonlinear_arith)
        requires
            o == 0 as real,
    ;
}

/// Sums of multiples are multiples of sums.
proof fn lemma_combined(
    g: Seq<real>,
    f: Seq<real>,
    h: Seq<real>,
    k: Seq<real>,
    a: real,
    b: real,
    c: real,
)
    requires
        f.len() == g.len(),
        h.len() == g.len(),
        k.len() == g.len(),
        forall|i: int|
            0 <= i < g.len() ==> #[trigger] g[i] == a * f[i] + b * h[i] + c * k[i],
    ensures
        total(g) == a * total(f) + b * total(h) + c * total(k),
    decreases g.len(),
{
    if g.len() == 0 {
        lemma_one_more(a, 0 as real, 0 as real);
        lemma_one_more(b, 0 as real, 0 as real);
        lemma_one_more(c, 0 as real, 0 as real);
    } else {
        let n = g.len() - 1;
        let (g2, f2, h2, k2) = (g.drop_last(), f.drop_last(), h.drop_last(), k.drop_last());
        assert forall|i: int| 0 <= i < g2.len() implies #[trigger] g2[i] == a * f2[i] + b * h2[i]
            + c * k2[i] by {
            assert(g2[i] == g[i]);
        }
        lemma_combined(g2, f2, h2, k2, a, b, c);
        lemma_one_more(a, total(f2), f[n]);
        lemma_one_more(b, total(h2), h[n]);
        lemma_one_more(c, total(k2), k[n]);
        assert(g[n] == a * f[n] + b * h[n] + c * k[n]);
    }
}

/// Weights times one coordinate.
pub open spec fn scaled_along(w: Seq<real>, d: Seq<Shift>, r: int) -> Seq<real> {
    Seq::new(d.len(), |i: int| w[i] * crate::registration::recovery_laws::along(d[i], r))
}

/// Weights times what two coordinates come to.
spec fn mixed(w: Seq<real>, d: Seq<Shift>, e: Seq<Shift>, r: int, c: int) -> Seq<real> {
    Seq::new(
        d.len(),
        |i: int|
            (w[i] * crate::registration::recovery_laws::along(d[i], r))
                * crate::registration::recovery_laws::along(e[i], c),
    )
}

/// Weights times the lengths along a direction.
spec fn directed(w: Seq<real>, d: Seq<Shift>, k: Shift) -> Seq<real> {
    Seq::new(d.len(), |i: int| w[i] * crate::models::motions::dot(k, d[i]))
}

/// Weights times the squares of the lengths.
spec fn squares(w: Seq<real>, d: Seq<Shift>) -> Seq<real> {
    Seq::new(d.len(), |i: int| w[i] * crate::models::motions::dot(d[i], d[i]))
}

/// Weights times how far the turned vectors go along the others.
spec fn matched(w: Seq<real>, d: Seq<Shift>, e: Seq<Shift>, q: Turn) -> Seq<real> {
    Seq::new(
        d.len(),
        |i: int|
            w[i] * crate::models::motions::dot(e[i], crate::models::motions::applied(q, d[i])),
    )
}

proof fn lemma_weighed_sum(w: real, a: real, b: real, c: real)
    ensures
        w * (a + b + c) == w * a + w * b + w * c,
{
    assert(w * (a + b + c) == w * a + w * b + w * c) by (nonlinear_arith);
}

proof fn lemma_pulled(w: real, k: real, d: real)
    ensures
        w * (k * d) == k * (w * d),
{
    assert(w * (k * d) == k * (w * d)) by (nonlinear_arith);
}

/// Vectors with nothing as their weighted sum have nothing along any direction.
proof fn lemma_directed(w: Seq<real>, d: Seq<Shift>, k: Shift)
    requires
        w.len() == d.len(),
        total(scaled_along(w, d, 0)) == 0 as real,
        total(scaled_along(w, d, 1)) == 0 as real,
        total(scaled_along(w, d, 2)) == 0 as real,
    ensures
        total(directed(w, d, k)) == 0 as real,
{
    let g = directed(w, d, k);
    let (x, y, z) = (scaled_along(w, d, 0), scaled_along(w, d, 1), scaled_along(w, d, 2));
    assert forall|i: int| 0 <= i < g.len() implies #[trigger] g[i] == k.x * x[i] + k.y * y[i] + k.z
        * z[i] by {
        lemma_weighed_sum(w[i], k.x * d[i].x, k.y * d[i].y, k.z * d[i].z);
        lemma_pulled(w[i], k.x, d[i].x);
        lemma_pulled(w[i], k.y, d[i].y);
        lemma_pulled(w[i], k.z, d[i].z);
    }
    lemma_combined(g, x, y, z, k.x, k.y, k.z);
    lemma_one_more(k.x, 0 as real, 0 as real);
    lemma_one_more(k.y, 0 as real, 0 as real);
    lemma_one_more(k.z, 0 as real, 0 as real);
}

proof fn lemma_reordered(w: real, e: real, k: real, d: real)
    ensures
        (w * e) * (k * d) == k * ((w * d) * e),
{
    let m = w * d;
    assert((w * e) * (k * d) == k * (m * e)) by (nonlinear_arith)
        requires
            m == w * d,
    ;
}

/// The part of one coordinate in how far the turned vectors go along the others.
proof fn lemma_matched_row(w: Seq<real>, d: Seq<Shift>, e: Seq<Shift>, k: Shift, c: int)
    requires
        w.len() == d.len(),
        e.len() == d.len(),
        0 <= c < 3,
    ensures
        total(
            Seq::new(
                d.len(),
                |i: int|
                    (w[i] * crate::registration::recovery_laws::along(e[i], c))
                        * crate::models::motions::dot(k, d[i]),
            ),
        ) == k.x * total(mixed(w, d, e, 0, c)) + k.y * total(mixed(w, d, e, 1, c)) + k.z * total(
            mixed(w, d, e, 2, c),
        ),
{
    let g = Seq::new(
        d.len(),
        |i: int|
            (w[i] * crate::registration::recovery_laws::along(e[i], c))
                * crate::models::motions::dot(k, d[i]),
    );
    let (x, y, z) = (mixed(w, d, e, 0, c), mixed(w, d, e, 1, c), mixed(w, d, e, 2, c));
    assert forall|i: int| 0 <= i < g.len() implies #[trigger] g[i] == k.x * x[i] + k.y * y[i] + k.z
        * z[i] by {
        let a = crate::registration::recovery_laws::along(e[i], c);
        lemma_weighed_sum(w[i] * a, k.x * d[i].x, k.y * d[i].y, k.z * d[i].z);
        lemma_reordered(w[i], a, k.x, d[i].x);
        lemma_reordered(w[i], a, k.y, d[i].y);
        lemma_reordered(w[i], a, k.z, d[i].z);
    }
    lemma_combined(g, x, y, z, k.x, k.y, k.z);
}

/// The entries of `h` are the weighted sums of what two coordinates come to.
spec fn is_mixed(w: Seq<real>, d: Seq<Shift>, e: Seq<Shift>, h: Turn) -> bool {
    &&& h.x.x == total(mixed(w, d, e, 0, 0))
    &&& h.x.y == total(mixed(w, d, e, 0, 1))
    &&& h.x.z == total(mixed(w, d, e, 0, 2))
    &&& h.y.x == total(mixed(w, d, e, 1, 0))
    &&& h.y.y == total(mixed(w, d, e, 1, 1))
    &&& h.y.z == total(mixed(w, d, e, 1, 2))
    &&& h.z.x == total(mixed(w, d, e, 2, 0))
    &&& h.z.y == total(mixed(w, d, e, 2, 1))
    &&& h.z.z == total(mixed(w, d, e, 2, 2))
}

/// How far the turned vectors go along the others is a trace.
proof fn lemma_matched(w: Seq<real>, d: Seq<Shift>, e: Seq<Shift>, q: Turn, h: Turn)
    requires
        w.len() == d.len(),
        e.len() == d.len(),
        is_mixed(w, d, e, h),
    ensures
        total(matched(w, d, e, q)) == crate::registration::trace_laws::trace(
            crate::models::motions::turns(q, h),
        ),
{
    let g = matched(w, d, e, q);
    let x = Seq::new(
        d.len(),
        |i: int|
            (w[i] * crate::registration::recovery_laws::along(e[i], 0))
                * crate::models::motions::dot(q.x, d[i]),
    );
    let y = Seq::new(
        d.len(),
        |i: int|
            (w[i] * crate::registration::recovery_laws::along(e[i], 1))
                * crate::models::motions::dot(q.y, d[i]),
    );
    let z = Seq::new(
        d.len(),
        |i: int|
            (w[i] * crate::registration::recovery_laws::along(e[i], 2))
                * crate::models::motions::dot(q.z, d[i]),
    );
    let one = 1 as real;
    assert forall|i: int| 0 <= i < g.len() implies #[trigger] g[i] == one * x[i] + one * y[i] + one
        * z[i] by {
        let (a, b, c) = (
            crate::models::motions::dot(q.x, d[i]),
            crate::models::motions::dot(q.y, d[i]),
            crate::models::motions::dot(q.z, d[i]),
        );
        lemma_weighed_sum(w[i], e[i].x * a, e[i].y * b, e[i].z * c);
        lemma_regrouped(w[i], e[i].x, a);
        lemma_regrouped(w[i], e[i].y, b);
        lemma_regrouped(w[i], e[i].z, c);
        lemma_once(x[i]);
        lemma_once(y[i]);
        lemma_once(z[i]);
    }
    lemma_combined(g, x, y, z, one, one, one);
    lemma_once(total(x));
    lemma_once(total(y));
    lemma_once(total(z));
    lemma_matched_row(w, d, e, q.x, 0);
    lemma_matched_row(w, d, e, q.y, 1);
    lemma_matched_row(w, d, e, q.z, 2);
}

proof fn lemma_regrouped(w: real, e: real, a: real)
    ensures
        w * (e * a) == (w * e) * a,
{
    assert(w * (e * a) == (w * e) * a) by (nonlinear_arith);
}

proof fn lemma_once(x: real)
    ensures
        1 as real * x == x,
        2 as real * x == x + x,
        -(2 as real) * x == -(x + x),
{
    let (e, f, g) = (1 as real, 2 as real, -(2 as real));
    assert(e * x == x && f * x == x + x && g * x == -(x + x)) by (nonlinear_arith)
        requires
            e == 1 as real,
            f == 2 as real,
            g == -(2 as real),
    ;
}

/// An orthogonal map keeps lengths.
proof fn lemma_length_kept(q: Turn, d: Shift)
    requires
        crate::models::motions::is_orthogonal(q),
    ensures
        crate::models::motions::dot(
            crate::models::motions::applied(q, d),
            crate::models::motions::applied(q, d),
        ) == crate::models::motions::dot(d, d),
{
    let a = crate::models::motions::applied(q, d);
    let t = crate::models::motions::transposed(q);
    crate::models::motions::lemma_dot_three(a, q, d);
    crate::models::motions::lemma_dot_swapped(a, t.x);
    crate::models::motions::lemma_dot_swapped(a, t.y);
    crate::models::motions::lemma_dot_swapped(a, t.z);
    assert(crate::models::motions::row_times(a, q) == crate::models::motions::applied(t, a));
    crate::models::motions::lemma_applied_twice(t, q, d);
    crate::models::motions::lemma_dot_units(d);
    assert(crate::models::motions::applied(crate::models::motions::straight(), d) == d);
}

/// The square of the length of a vector.
pub open spec fn square(v: Shift) -> real {
    crate::models::motions::dot(v, v)
}

/// The square of the length of a sum.
proof fn lemma_square_of_sum(a: Shift, b: Shift)
    ensures
        square(crate::models::motions::plus(a, b)) == square(a) + square(b)
            + crate::models::motions::dot(b, a) + crate::models::motions::dot(b, a),
{
    let v = crate::models::motions::plus(a, b);
    crate::models::motions::lemma_dot_plus(v, a, b);
    crate::models::motions::lemma_dot_swapped(v, a);
    crate::models::motions::lemma_dot_swapped(v, b);
    crate::models::motions::lemma_dot_plus(a, a, b);
    crate::models::motions::lemma_dot_plus(b, a, b);
    crate::models::motions::lemma_dot_swapped(a, b);
}

/// How far a moved point misses its counterpart, in terms of the offsets from the
/// centres: `c` is by how much the moved centre misses the other.
proof fn lemma_one_miss(q: Turn, d: Shift, e: Shift, c: Shift)
    requires
        crate::models::motions::is_orthogonal(q),
    ensures
        ({
            let a = crate::models::motions::applied(q, d);
            let g = crate::models::motions::plus(a, crate::models::motions::minus(e));
            let k = crate::models::motions::row_times(c, q);
            square(crate::models::motions::plus(g, c)) == square(d) + square(e) - (
            crate::models::motions::dot(e, a) + crate::models::motions::dot(e, a)) + square(c) + (
            crate::models::motions::dot(k, d) + crate::models::motions::dot(k, d)) - (
            crate::models::motions::dot(c, e) + crate::models::motions::dot(c, e))
        }),
{
    let a = crate::models::motions::applied(q, d);
    let n = crate::models::motions::minus(e);
    let g = crate::models::motions::plus(a, n);
    lemma_square_of_sum(g, c);
    lemma_square_of_sum(a, n);
    lemma_length_kept(q, d);
    crate::models::motions::lemma_dot_minus(n, e);
    crate::models::motions::lemma_dot_swapped(n, e);
    crate::models::motions::lemma_dot_minus(e, e);
    crate::models::motions::lemma_dot_swapped(n, a);
    crate::models::motions::lemma_dot_minus(a, e);
    crate::models::motions::lemma_dot_swapped(a, e);
    crate::models::motions::lemma_dot_plus(c, a, n);
    crate::models::motions::lemma_dot_minus(c, e);
    crate::models::motions::lemma_dot_three(c, q, d);
}

/// Weights times the squares of the misses.
spec fn missed(w: Seq<real>, d: Seq<Shift>, e: Seq<Shift>, q: Turn, c: Shift) -> Seq<real> {
    Seq::new(
        d.len(),
        |i: int|
            w[i] * square(
                crate::models::motions::plus(
                    crate::models::motions::plus(
                        crate::models::motions::applied(q, d[i]),
                        crate::models::motions::minus(e[i]),
                    ),
                    c,
                ),
            ),
    )
}

proof fn lemma_six_weighed(w: real, a: real, b: real, m: real, s: real, k: real, l: real)
    ensures
        w * (a + b - (m + m) + s + (k + k) - (l + l)) == w * a + w * b - (w * m + w * m) + w * s + (
        w * k + w * k) - (w * l + w * l),
{
    lemma_weighed_sum(w, a, b, s);
    let t = a + b + s;
    let u = k - m - l;
    assert(w * (t + u + u) == w * t + w * u + w * u) by (nonlinear_arith);
    assert(w * (k - m - l) == w * k - w * m - w * l) by (nonlinear_arith);
    assert(a + b - (m + m) + s + (k + k) - (l + l) == t + u + u);
}

/// All misses: what the offsets come to, less twice what the turn matches of them,
/// and for each weight the square by which the centre is missed.
proof fn lemma_all_missed(w: Seq<real>, d: Seq<Shift>, e: Seq<Shift>, q: Turn, c: Shift)
    requires
        w.len() == d.len(),
        e.len() == d.len(),
        crate::models::motions::is_orthogonal(q),
        forall|r: int| 0 <= r < 3 ==> total(#[trigger] scaled_along(w, d, r)) == 0 as real,
        forall|r: int| 0 <= r < 3 ==> total(#[trigger] scaled_along(w, e, r)) == 0 as real,
    ensures
        total(missed(w, d, e, q, c)) == total(squares(w, d)) + total(squares(w, e)) - (total(
            matched(w, d, e, q),
        ) + total(matched(w, d, e, q))) + square(c) * total(w),
{
    let g = missed(w, d, e, q, c);
    let k = crate::models::motions::row_times(c, q);
    let (sd, se, m) = (squares(w, d), squares(w, e), matched(w, d, e, q));
    let (x, y) = (directed(w, d, k), directed(w, e, c));
    let n = d.len();
    let (one, two, less) = (1 as real, 2 as real, -(2 as real));
    let first = Seq::new(n, |i: int| one * sd[i] + one * se[i] + less * m[i]);
    let second = Seq::new(n, |i: int| two * x[i] + less * y[i] + square(c) * w[i]);
    let nothing = Seq::new(n, |i: int| 0 as real);
    assert forall|i: int| 0 <= i < n implies #[trigger] g[i] == one * first[i] + one * second[i]
        + one * nothing[i] by {
        let a = crate::models::motions::applied(q, d[i]);
        lemma_one_miss(q, d[i], e[i], c);
        lemma_six_weighed(
            w[i],
            square(d[i]),
            square(e[i]),
            crate::models::motions::dot(e[i], a),
            square(c),
            crate::models::motions::dot(k, d[i]),
            crate::models::motions::dot(c, e[i]),
        );
        lemma_once(sd[i]);
        lemma_once(se[i]);
        lemma_once(m[i]);
        lemma_once(x[i]);
        lemma_once(y[i]);
        lemma_once(first[i]);
        lemma_once(second[i]);
        lemma_once(nothing[i]);
        lemma_swapped_factors(square(c), w[i]);
    }
    lemma_combined(g, first, second, nothing, one, one, one);
    lemma_combined(first, sd, se, m, one, one, less);
    lemma_combined(second, x, y, w, two, less, square(c));
    lemma_no_total(nothing);
    lemma_directed(w, d, k);
    lemma_directed(w, e, c);
    lemma_once(total(first));
    lemma_once(total(second));
    lemma_once(total(nothing));
    lemma_once(total(sd));
    lemma_once(total(se));
    lemma_once(total(m));
    lemma_once(total(x));
    lemma_once(total(y));
}

proof fn lemma_swapped_factors(a: real, b: real)
    ensures
        a * b == b * a,
{
    assert(a * b == b * a) by (nonlinear_arith);
}

proof fn lemma_no_total(s: Seq<real>)
    requires
        forall|i: int| 0 <= i < s.len() ==> #[trigger] s[i] == 0 as real,
    ensures
        total(s) == 0 as real,
    decreases s.len(),
{
    if s.len() > 0 {
        let t = s.drop_last();
        assert forall|i: int| 0 <= i < t.len() implies #[trigger] t[i] == 0 as real by {
            assert(t[i] == s[i]);
        }
        lemma_no_total(t);
        assert(s[s.len() - 1] == 0 as real);
    }
}

/// The numbers that weights stand for.
pub open spec fn weights_seen<T>(value: spec_fn(T) -> real, weights: Seq<T>) -> Seq<real> {
    Seq::new(weights.len(), |i: int| value(weights[i]))
}

proof fn lemma_weights_total<T>(value: spec_fn(T) -> real, weights: Seq<T>)
    ensures
        total(weights_seen(value, weights)) == crate::utils::shares::exact_total(value, weights),
    decreases weights.len(),
{
    if weights.len() > 0 {
        lemma_weights_total(value, weights.drop_last());
        assert(weights_seen(value, weights).drop_last() =~= weights_seen(
            value,
            weights.drop_last(),
        ));
    }
}

proof fn lemma_weighted_total<T>(value: spec_fn(T) -> real, weights: Seq<T>, p: Seq<real>)
    requires
        weights.len() == p.len(),
    ensures
        crate::registration::recovery_laws::weighted(value, weights, p) == total(
            Seq::new(p.len(), |i: int| value(weights[i]) * p[i]),
        ),
    decreases p.len(),
{
    if p.len() > 0 {
        let (w, q) = (weights.drop_last(), p.drop_last());
        lemma_weighted_total(value, w, q);
        let s = Seq::new(p.len(), |i: int| value(weights[i]) * p[i]);
        assert(s.drop_last() =~= Seq::new(q.len(), |i: int| value(w[i]) * q[i]));
    }
}

proof fn lemma_run_total<T>(value: spec_fn(T) -> real, left: Seq<T>, right: Seq<T>)
    requires
        left.len() == right.len(),
    ensures
        crate::registration::recovery_laws::exact_run(
            value,
            crate::registration::pairs(left, right),
        ) == total(Seq::new(left.len(), |i: int| value(left[i]) * value(right[i]))),
    decreases left.len(),
{
    if left.len() > 0 {
        let (l, r) = (left.drop_last(), right.drop_last());
        lemma_run_total(value, l, r);
        let s = Seq::new(left.len(), |i: int| value(left[i]) * value(right[i]));
        assert(s.drop_last() =~= Seq::new(l.len(), |i: int| value(l[i]) * value(r[i])));
        let terms: Seq<SignedProduct<T>> = crate::registration::pairs(left, right);
        assert(terms.drop_last() =~= crate::registration::pairs(l, r));
        let n = left.len() - 1;
        assert(terms.last() == crate::rotation::added(left[n], right[n]));
    }
}

/// The weighted sum of the offsets from a centre is nothing.
pub proof fn lemma_centred<T, O: Arithmetic<T>>(
    ops: &O,
    zero: T,
    points: Seq<[T; 3]>,
    weights: Seq<T>,
    share: T,
    centre: Seq<T>,
    r: int,
    value: spec_fn(T) -> real,
)
    requires
        crate::scalar::is_exact(ops, value),
        value(zero) == 0 as real,
        points.len() == weights.len(),
        0 <= r < 3,
        crate::registration::is_centre_coordinate(
            ops,
            zero,
            points,
            weights.len(),
            weights,
            share,
            r,
            centre[r],
        ),
        crate::utils::shares::exact_total(value, weights) * value(share) == 1 as real,
    ensures
        total(
            scaled_along(
                weights_seen(value, weights),
                crate::registration::recovery_laws::offsets_of(value, points, centre),
                r,
            ),
        ) == 0 as real,
{
    let n = weights.len();
    let w = weights_seen(value, weights);
    let d = crate::registration::recovery_laws::offsets_of(value, points, centre);
    let p = crate::registration::recovery_laws::coordinates(value, points, n, r);
    let f = value(centre[r]);
    let g = scaled_along(w, d, r);
    let wp = Seq::new(n, |i: int| value(weights[i]) * p[i]);
    crate::registration::recovery_laws::lemma_centre(
        ops,
        zero,
        points,
        weights,
        share,
        r,
        centre[r],
        value,
    );
    lemma_weighted_total(value, weights, p);
    assert(wp =~= Seq::new(p.len(), |i: int| value(weights[i]) * p[i]));
    let nothing = Seq::new(n, |i: int| 0 as real);
    let one = 1 as real;
    assert forall|i: int| 0 <= i < g.len() implies #[trigger] g[i] == one * wp[i] + -f * w[i] + one
        * nothing[i] by {
        assert(r == 0 || r == 1 || r == 2);
        assert(crate::registration::recovery_laws::along(d[i], r) == p[i] - f);
        lemma_offset(w[i], p[i], f);
        lemma_once(wp[i]);
        lemma_once(nothing[i]);
    }
    lemma_combined(g, wp, w, nothing, one, -f, one);
    lemma_no_total(nothing);
    lemma_once(total(wp));
    lemma_once(total(nothing));
    lemma_weights_total(value, weights);
    let (a, s, t) = (total(wp), value(share), total(w));
    assert(f == a * s);
    assert(-f * t == -a) by {
        assert((a * s) * t == a * (t * s)) by (nonlinear_arith);
        let e = t * s;
        assert(a * e == a) by (nonlinear_arith)
            requires
                e == 1 as real,
        ;
        assert(-f * t == -(f * t)) by (nonlinear_arith);
    }
}

proof fn lemma_offset(w: real, p: real, f: real)
    ensures
        w * (p - f) == w * p + -f * w,
{
    assert(w * (p - f) == w * p - w * f) by (nonlinear_arith);
    assert(w * f == f * w) by (nonlinear_arith);
    assert(-f * w == -(f * w)) by (nonlinear_arith);
}

/// An entry of the covariance is the weighted sum of what two coordinates come to.
proof fn lemma_covariance_mixed<T, O: Arithmetic<T>>(
    ops: &O,
    zero: T,
    src: Seq<[T; 3]>,
    tgt: Seq<[T; 3]>,
    weights: Seq<T>,
    from: Seq<T>,
    to: Seq<T>,
    r: int,
    c: int,
    h: T,
    value: spec_fn(T) -> real,
)
    requires
        crate::scalar::is_exact(ops, value),
        value(zero) == 0 as real,
        src.len() == weights.len(),
        tgt.len() == src.len(),
        0 <= r < 3,
        0 <= c < 3,
        crate::registration::is_covariance(
            ops,
            zero,
            src,
            tgt,
            src.len(),
            weights,
            from,
            to,
            r,
            c,
            h,
        ),
    ensures
        value(h) == total(
            mixed(
                weights_seen(value, weights),
                crate::registration::recovery_laws::offsets_of(value, src, from),
                crate::registration::recovery_laws::offsets_of(value, tgt, to),
                r,
                c,
            ),
        ),
{
    let n = src.len();
    let (dx, wx, dy) = choose|dx: Seq<T>, wx: Seq<T>, dy: Seq<T>|
        {
            &&& #[trigger] crate::registration::are_offsets(ops, src, n, r, from[r], dx)
            &&& #[trigger] crate::registration::are_scaled(ops, weights, dx, wx)
            &&& #[trigger] crate::registration::are_offsets(ops, tgt, n, c, to[c], dy)
            &&& crate::registration::is_running_sum(
                ops,
                zero,
                crate::registration::pairs(wx, dy),
                h,
            )
        };
    let d = crate::registration::recovery_laws::offsets_of(value, src, from);
    let e = crate::registration::recovery_laws::offsets_of(value, tgt, to);
    let w = weights_seen(value, weights);
    crate::registration::recovery_laws::lemma_run(
        ops,
        zero,
        crate::registration::pairs(wx, dy),
        h,
        value,
    );
    lemma_run_total(value, wx, dy);
    let s = Seq::new(wx.len(), |i: int| value(wx[i]) * value(dy[i]));
    let m = mixed(w, d, e, r, c);
    assert forall|i: int| 0 <= i < n implies #[trigger] s[i] == m[i] by {
        assert(crate::scalar::product_of(ops, weights[i], dx[i], wx[i]));
        assert(crate::scalar::difference_of(ops, src[i]@[r], from[r], dx[i]));
        assert(crate::scalar::difference_of(ops, tgt[i]@[c], to[c], dy[i]));
        assert(r == 0 || r == 1 || r == 2);
        assert(c == 0 || c == 1 || c == 2);
    }
    assert(s =~= m);
}

/// The sum of the weighted squares of the distances between the points of `src`,
/// turned and shifted, and their counterparts.
pub open spec fn misfit<T>(
    value: spec_fn(T) -> real,
    weights: Seq<T>,
    src: Seq<[T; 3]>,
    tgt: Seq<[T; 3]>,
    q: Turn,
    t: Shift,
) -> real {
    total(
        Seq::new(
            src.len(),
            |i: int|
                value(weights[i]) * square(
                    crate::models::motions::plus(
                        crate::models::motions::plus(
                            crate::models::motions::applied(
                                q,
                                crate::models::motions::row_seen(value, src[i]@),
                            ),
                            t,
                        ),
                        crate::models::motions::minus(
                            crate::models::motions::row_seen(value, tgt[i]@),
                        ),
                    ),
                ),
        ),
    )
}

/// The misfit in terms of the offsets from the centres.
proof fn lemma_misfit<T>(
    value: spec_fn(T) -> real,
    weights: Seq<T>,
    src: Seq<[T; 3]>,
    tgt: Seq<[T; 3]>,
    from: Seq<T>,
    to: Seq<T>,
    q: Turn,
    t: Shift,
)
    requires
        src.len() == weights.len(),
        tgt.len() == src.len(),
    ensures
        ({
            let a = crate::models::motions::row_seen(value, from);
            let b = crate::models::motions::row_seen(value, to);
            misfit(value, weights, src, tgt, q, t) == total(
                missed(
                    weights_seen(value, weights),
                    crate::registration::recovery_laws::offsets_of(value, src, from),
                    crate::registration::recovery_laws::offsets_of(value, tgt, to),
                    q,
                    crate::models::motions::plus(
                        crate::models::motions::plus(crate::models::motions::applied(q, a), t),
                        crate::models::motions::minus(b),
                    ),
                ),
            )
        }),
{
    let a = crate::models::motions::row_seen(value, from);
    let b = crate::models::motions::row_seen(value, to);
    let w = weights_seen(value, weights);
    let d = crate::registration::recovery_laws::offsets_of(value, src, from);
    let e = crate::registration::recovery_laws::offsets_of(value, tgt, to);
    let c = crate::models::motions::plus(
        crate::models::motions::plus(crate::models::motions::applied(q, a), t),
        crate::models::motions::minus(b),
    );
    let m = missed(w, d, e, q, c);
    let s = Seq::new(
        src.len(),
        |i: int|
            value(weights[i]) * square(
                crate::models::motions::plus(
                    crate::models::motions::plus(
                        crate::models::motions::applied(
                            q,
                            crate::models::motions::row_seen(value, src[i]@),
                        ),
                        t,
                    ),
                    crate::models::motions::minus(
                        crate::models::motions::row_seen(value, tgt[i]@),
                    ),
                ),
            ),
    );
    assert forall|i: int| 0 <= i < s.len() implies #[trigger] s[i] == m[i] by {
        let p = crate::models::motions::row_seen(value, src[i]@);
        let y = crate::models::motions::row_seen(value, tgt[i]@);
        assert(p == crate::models::motions::plus(d[i], a));
        assert(y == crate::models::motions::plus(e[i], b));
        crate::models::motions::lemma_dot_plus(q.x, d[i], a);
        crate::models::motions::lemma_dot_plus(q.y, d[i], a);
        crate::models::motions::lemma_dot_plus(q.z, d[i], a);
        let v = crate::models::motions::plus(
            crate::models::motions::plus(crate::models::motions::applied(q, p), t),
            crate::models::motions::minus(y),
        );
        let u = crate::models::motions::plus(
            crate::models::motions::plus(
                crate::models::motions::applied(q, d[i]),
                crate::models::motions::minus(e[i]),
            ),
            c,
        );
        assert(u.x == v.x && u.y == v.y && u.z == v.z);
        assert(u == v);
    }
    assert(s =~= m);
}

/// The rotation of a registration has the largest trace before the covariance.
proof fn lemma_largest<T, O: RegistrationOps<T>>(
    ops: &O,
    zero: T,
    one: T,
    m: [[T; 3]; 3],
    turned: Seq<Seq<T>>,
    q: Turn,
    value: spec_fn(T) -> real,
)
    requires
        crate::scalar::is_exact(ops, value),
        crate::registration::recovery_laws::registers_exactly(ops, value),
        value(zero) == 0 as real,
        value(one) == 1 as real,
        crate::registration::proper_laws::is_proper_turn(q),
        crate::registration::proper::is_best_rotation(ops, zero, one, m, turned),
    ensures
        ({
            let h = crate::models::turn_laws::turn_of(value, crate::rotation::rows3(m));
            let r = crate::models::turn_laws::turn_of(value, turned);
            crate::registration::trace_laws::trace(crate::models::motions::turns(q, h))
                <= crate::registration::trace_laws::trace(crate::models::motions::turns(r, h))
        }),
{
    let h = crate::models::turn_laws::turn_of(value, crate::rotation::rows3(m));
    let f = choose|f: ([[T; 3]; 3], [[T; 3]; 3])| #[trigger]
        call_ensures(O::factors, (ops, &m), f) && crate::registration::proper::is_proper(
            ops,
            zero,
            one,
            crate::rotation::transposed(crate::rotation::rows3(f.1)),
            crate::rotation::transposed(crate::rotation::rows3(f.0)),
            turned,
        );
    let (a, b) = (crate::rotation::rows3(f.0), crate::rotation::rows3(f.1));
    let u = crate::models::turn_laws::turn_of(value, a);
    let v = crate::models::turn_laws::turn_of(value, b);
    let k = choose|k: Shift| #[trigger]
        crate::registration::polar_laws::is_decomposition(h, u, k, v);
    crate::registration::proper_laws::law_exact_proper(
        ops,
        zero,
        one,
        crate::rotation::transposed(b),
        crate::rotation::transposed(a),
        turned,
        value,
    );
    assert(crate::models::turn_laws::turn_of(value, crate::rotation::transposed(a))
        == crate::models::motions::transposed(u));
    assert(crate::models::turn_laws::turn_of(value, crate::rotation::transposed(b))
        == crate::models::motions::transposed(v));
    crate::registration::trace_laws::law_largest_trace(h, u, k, v, q);
}

/// In exact arithmetic no rotation and shift bring the first points closer to the
/// second than the registration does, in the weighted sum of the squares of the
/// distances, where the weights come to more than nothing.
pub proof fn law_registration_least<T, O: RegistrationOps<T>>(
    ops: &O,
    zero: T,
    one: T,
    src: Seq<[T; 3]>,
    tgt: Seq<[T; 3]>,
    weights: Seq<T>,
    rigid: Rigid<T>,
    q: Turn,
    t: Shift,
    value: spec_fn(T) -> real,
)
    requires
        crate::scalar::is_exact(ops, value),
        crate::registration::recovery_laws::registers_exactly(ops, value),
        value(zero) == 0 as real,
        value(one) == 1 as real,
        src.len() == weights.len(),
        tgt.len() == src.len(),
        crate::utils::shares::exact_total(value, weights) > 0 as real,
        crate::registration::proper_laws::is_proper_turn(q),
        crate::registration::is_registration(ops, zero, one, src, tgt, weights, rigid),
    ensures
        misfit(
            value,
            weights,
            src,
            tgt,
            crate::models::turn_laws::turn_of(value, crate::rotation::rows3(rigid.rotation)),
            crate::models::motions::row_seen(value, rigid.translation@),
        ) <= misfit(value, weights, src, tgt, q, t),
{
    let steps = choose|steps: Steps<T>| #[trigger]
        crate::registration::are_steps(ops, zero, one, src, tgt, weights, steps, rigid);
    let turned = crate::rotation::rows3(rigid.rotation);
    let r = crate::models::turn_laws::turn_of(value, turned);
    let shift = crate::models::motions::row_seen(value, rigid.translation@);
    let h = crate::models::turn_laws::turn_of(value, crate::rotation::rows3(steps.covariance));
    let (from, to) = (steps.from@, steps.to@);
    let w = weights_seen(value, weights);
    let d = crate::registration::recovery_laws::offsets_of(value, src, from);
    let e = crate::registration::recovery_laws::offsets_of(value, tgt, to);
    crate::registration::recovery_laws::lemma_share(ops, zero, one, weights, steps.share, value);
    lemma_weights_total(value, weights);
    assert forall|c: int| 0 <= c < 3 implies total(#[trigger] scaled_along(w, d, c))
        == 0 as real by {
        assert(crate::registration::is_centre_coordinate(
            ops,
            zero,
            src,
            weights.len(),
            weights,
            steps.share,
            c,
            from[c],
        ));
        lemma_centred(ops, zero, src, weights, steps.share, from, c, value);
    }
    assert forall|c: int| 0 <= c < 3 implies total(#[trigger] scaled_along(w, e, c))
        == 0 as real by {
        assert(crate::registration::is_centre_coordinate(
            ops,
            zero,
            tgt,
            weights.len(),
            weights,
            steps.share,
            c,
            to[c],
        ));
        lemma_centred(ops, zero, tgt, weights, steps.share, to, c, value);
    }
    lemma_all_mixed(ops, zero, one, src, tgt, weights, steps, rigid, value);
    crate::registration::proper_laws::law_registrations_proper(
        ops,
        zero,
        one,
        src,
        tgt,
        weights,
        rigid,
        value,
    );
    lemma_largest(ops, zero, one, steps.covariance, turned, q, value);
    let a = crate::models::motions::row_seen(value, from);
    let b = crate::models::motions::row_seen(value, to);
    let c = crate::models::motions::plus(
        crate::models::motions::plus(crate::models::motions::applied(q, a), t),
        crate::models::motions::minus(b),
    );
    let none = crate::models::motions::plus(
        crate::models::motions::plus(crate::models::motions::applied(r, a), shift),
        crate::models::motions::minus(b),
    );
    lemma_centre_met(ops, zero, one, src, tgt, weights, steps, rigid, value);
    lemma_misfit(value, weights, src, tgt, from, to, q, t);
    lemma_misfit(value, weights, src, tgt, from, to, r, shift);
    lemma_all_missed(w, d, e, q, c);
    lemma_all_missed(w, d, e, r, none);
    lemma_matched(w, d, e, q, h);
    lemma_matched(w, d, e, r, h);
    lemma_square_sign(c);
    lemma_square_sign(none);
    let (s, k) = (square(c), total(w));
    assert(s * k >= 0 as real) by (nonlinear_arith)
        requires
            s >= 0 as real,
            k > 0 as real,
    ;
    let z = square(none);
    assert(z * k == 0 as real) by (nonlinear_arith)
        requires
            z == 0 as real,
    ;
}

proof fn lemma_square_sign(v: Shift)
    ensures
        square(v) >= 0 as real,
        v == crate::models::motions::origin() ==> square(v) == 0 as real,
{
    let (x, y, z) = (v.x, v.y, v.z);
    assert(x * x >= 0 as real) by (nonlinear_arith);
    assert(y * y >= 0 as real) by (nonlinear_arith);
    assert(z * z >= 0 as real) by (nonlinear_arith);
    crate::models::motions::lemma_dot_units(v);
}

/// The registration takes the one centre to the other.
proof fn lemma_centre_met<T, O: RegistrationOps<T>>(
    ops: &O,
    zero: T,
    one: T,
    src: Seq<[T; 3]>,
    tgt: Seq<[T; 3]>,
    weights: Seq<T>,
    steps: Steps<T>,
    rigid: Rigid<T>,
    value: spec_fn(T) -> real,
)
    requires
        crate::scalar::is_exact(ops, value),
        crate::registration::are_steps(ops, zero, one, src, tgt, weights, steps, rigid),
    ensures
        crate::models::motions::plus(
            crate::models::motions::plus(
                crate::models::motions::applied(
                    crate::models::turn_laws::turn_of(
                        value,
                        crate::rotation::rows3(rigid.rotation),
                    ),
                    crate::models::motions::row_seen(value, steps.from@),
                ),
                crate::models::motions::row_seen(value, rigid.translation@),
            ),
            crate::models::motions::minus(crate::models::motions::row_seen(value, steps.to@)),
        ) == crate::models::motions::origin(),
{
    crate::registration::law_centre_to_centre(
        ops,
        zero,
        one,
        src,
        tgt,
        weights,
        steps,
        rigid,
        value,
        0,
    );
    crate::registration::law_centre_to_centre(
        ops,
        zero,
        one,
        src,
        tgt,
        weights,
        steps,
        rigid,
        value,
        1,
    );
    crate::registration::law_centre_to_centre(
        ops,
        zero,
        one,
        src,
        tgt,
        weights,
        steps,
        rigid,
        value,
        2,
    );
    let rows = crate::rotation::rows3(rigid.rotation);
    assert(rows[0] == rigid.rotation@[0]@);
    assert(rows[1] == rigid.rotation@[1]@);
    assert(rows[2] == rigid.rotation@[2]@);
}

/// The covariance holds the weighted sums of what two coordinates come to.
proof fn lemma_all_mixed<T, O: RegistrationOps<T>>(
    ops: &O,
    zero: T,
    one: T,
    src: Seq<[T; 3]>,
    tgt: Seq<[T; 3]>,
    weights: Seq<T>,
    steps: Steps<T>,
    rigid: Rigid<T>,
    value: spec_fn(T) -> real,
)
    requires
        crate::scalar::is_exact(ops, value),
        value(zero) == 0 as real,
        src.len() == weights.len(),
        tgt.len() == src.len(),
        crate::registration::are_steps(ops, zero, one, src, tgt, weights, steps, rigid),
    ensures
        is_mixed(
            weights_seen(value, weights),
            crate::registration::recovery_laws::offsets_of(value, src, steps.from@),
            crate::registration::recovery_laws::offsets_of(value, tgt, steps.to@),
            crate::models::turn_laws::turn_of(value, crate::rotation::rows3(steps.covariance)),
        ),
{
    let m = steps.covariance;
    let w = weights_seen(value, weights);
    let d = crate::registration::recovery_laws::offsets_of(value, src, steps.from@);
    let e = crate::registration::recovery_laws::offsets_of(value, tgt, steps.to@);
    assert forall|r: int, c: int| 0 <= r < 3 && 0 <= c < 3 implies value(
        #[trigger] m@[r]@[c],
    ) == total(mixed(w, d, e, r, c)) by {
        lemma_covariance_mixed(
            ops,
            zero,
            src,
            tgt,
            weights,
            steps.from@,
            steps.to@,
            r,
            c,
            m@[r]@[c],
            value,
        );
    }
    assert(value(m@[0]@[0]) == total(mixed(w, d, e, 0, 0)));
    assert(value(m@[0]@[1]) == total(mixed(w, d, e, 0, 1)));
    assert(value(m@[0]@[2]) == total(mixed(w, d, e, 0, 2)));
    assert(value(m@[1]@[0]) == total(mixed(w, d, e, 1, 0)));
    assert(value(m@[1]@[1]) == total(mixed(w, d, e, 1, 1)));
    assert(value(m@[1]@[2]) == total(mixed(w, d, e, 1, 2)));
    assert(value(m@[2]@[0]) == total(mixed(w, d, e, 2, 0)));
    assert(value(m@[2]@[1]) == total(mixed(w, d, e, 2, 1)));
    assert(value(m@[2]@[2]) == total(mixed(w, d, e, 2, 2)));
}

} // verus!
