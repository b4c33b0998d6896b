//! In exact arithmetic a registration finds the rigid motion between two sets
//! of points.
use vstd::prelude::*;

use crate::models::motions::{Shift, Turn};
use crate::registration::{RegistrationOps, Rigid, Steps};
use crate::rotation::SignedProduct;
use crate::scalar::Arithmetic;

verus! {

/// The row of a map.
pub open spec fn row(t: Turn, c: int) -> Shift {
    if c == 0 {
        t.x
    } else if c == 1 {
        t.y
    } else {
        t.z
    }
}

/// The coordinate of a vector.
pub open spec fn along(v: Shift, c: int) -> real {
    if c == 0 {
        v.x
    } else if c == 1 {
        v.y
    } else {
        v.z
    }
}

/// The sum of the weighted products of two coordinates, along `u` and `v`.
pub open spec fn moment<T>(
    value: spec_fn(T) -> real,
    weights: Seq<T>,
    d: Seq<Shift>,
    u: Shift,
    v: Shift,
) -> real
    decreases d.len(),
{
    if d.len() == 0 {
        0 as real
    } else {
        moment(value, weights.drop_last(), d.drop_last(), u, v) + (value(weights.last())
            * crate::models::motions::dot(u, d.last())) * crate::models::motions::dot(v, d.last())
    }
}

/// The moments along the axes.
pub open spec fn scatter<T>(value: spec_fn(T) -> real, weights: Seq<T>, d: Seq<Shift>) -> Turn {
    let e = crate::models::motions::straight();
    Turn {
        x: moments(value, weights, d, e.x),
        y: moments(value, weights, d, e.y),
        z: moments(value, weights, d, e.z),
    }
}

pub open spec fn moments<T>(
    value: spec_fn(T) -> real,
    weights: Seq<T>,
    d: Seq<Shift>,
    u: Shift,
) -> Shift {
    let e = crate::models::motions::straight();
    Shift {
        x: moment(value, weights, d, u, e.x),
        y: moment(value, weights, d, u, e.y),
        z: moment(value, weights, d, u, e.z),
    }
}

proof fn lemma_moment_spread<T>(
    value: spec_fn(T) -> real,
    weights: Seq<T>,
    d: Seq<Shift>,
    u: Shift,
    v: Shift,
)
    requires
        weights.len() == d.len(),
    ensures
        moment(value, weights, d, u, v) == crate::models::motions::dot(
            v,
            moments(value, weights, d, u),
        ),
    decreases d.len(),
{
    let o = 0 as real;
    let (x, y, z) = (v.x, v.y, v.z);
    if d.len() == 0 {
        assert(x * o == o && y * o == o && z * o == o) by (nonlinear_arith)
            requires
                o == 0 as real,
        ;
    } else {
        let (w, f) = (weights.drop_last(), d.drop_last());
        let p = d.last();
        lemma_moment_spread(value, w, f, u, v);
        let k = value(weights.last()) * crate::models::motions::dot(u, p);
        crate::models::motions::lemma_dot_units(p);
        let m = moments(value, w, f, u);
        lemma_added(x, m.x, k, p.x);
        lemma_added(y, m.y, k, p.y);
        lemma_added(z, m.z, k, p.z);
        let (a, b, c) = (x * p.x, y * p.y, z * p.z);
        assert(k * (a + b + c) == k * a + k * b + k * c) by (nonlinear_arith);
    }
}

proof fn lemma_added(x: real, m: real, k: real, p: real)
    ensures
        x * (m + k * p) == x * m + k * (x * p),
{
    let q = k * p;
    assert(x * (m + q) == x * m + x * q) by (nonlinear_arith);
    assert(x * q == k * (x * p)) by (nonlinear_arith)
        requires
            q == k * p,
    ;
}

proof fn lemma_moment_symmetric<T>(
    value: spec_fn(T) -> real,
    weights: Seq<T>,
    d: Seq<Shift>,
    u: Shift,
    v: Shift,
)
    ensures
        moment(value, weights, d, u, v) == moment(value, weights, d, v, u),
    decreases d.len(),
{
    if d.len() > 0 {
        lemma_moment_symmetric(value, weights.drop_last(), d.drop_last(), u, v);
        let w = value(weights.last());
        let a = crate::models::motions::dot(u, d.last());
        let b = crate::models::motions::dot(v, d.last());
        assert((w * a) * b == (w * b) * a) by (nonlinear_arith);
    }
}

/// No weight is negative.
pub open spec fn weighs<T>(value: spec_fn(T) -> real, weights: Seq<T>) -> bool {
    forall|i: int| 0 <= i < weights.len() ==> value(#[trigger] weights[i]) >= 0 as real
}

proof fn lemma_moment_nonnegative<T>(
    value: spec_fn(T) -> real,
    weights: Seq<T>,
    d: Seq<Shift>,
    u: Shift,
)
    requires
        weights.len() == d.len(),
        weighs(value, weights),
    ensures
        moment(value, weights, d, u, u) >= 0 as real,
    decreases d.len(),
{
    if d.len() > 0 {
        let front = weights.drop_last();
        assert forall|i: int| 0 <= i < front.len() implies value(#[trigger] front[i])
            >= 0 as real by {
            assert(front[i] == weights[i]);
        }
        lemma_moment_nonnegative(value, front, d.drop_last(), u);
        let w = value(weights[weights.len() - 1]);
        let a = crate::models::motions::dot(u, d.last());
        let q = a * a;
        assert(q >= 0 as real) by (nonlinear_arith)
            requires
                q == a * a,
        ;
        assert((w * a) * a == w * q) by (nonlinear_arith)
            requires
                q == a * a,
        ;
        assert(w * q >= 0 as real) by (nonlinear_arith)
            requires
                w >= 0 as real,
                q >= 0 as real,
        ;
    }
}

proof fn lemma_scatter<T>(value: spec_fn(T) -> real, weights: Seq<T>, d: Seq<Shift>)
    requires
        weights.len() == d.len(),
        weighs(value, weights),
    ensures
        crate::registration::polar_laws::is_symmetric(scatter(value, weights, d)),
        crate::registration::polar_laws::is_nonnegative(scatter(value, weights, d)),
{
    let e = crate::models::motions::straight();
    let s = scatter(value, weights, d);
    lemma_moment_symmetric(value, weights, d, e.x, e.y);
    lemma_moment_symmetric(value, weights, d, e.x, e.z);
    lemma_moment_symmetric(value, weights, d, e.y, e.z);
    let t = crate::models::motions::transposed(s);
    assert(t.x == s.x && t.y == s.y && t.z == s.z);
    assert forall|v: Shift|
        crate::models::motions::dot(v, #[trigger] crate::models::motions::applied(s, v))
            >= 0 as real by {
        let y = crate::models::motions::applied(s, v);
        lemma_moment_spread(value, weights, d, e.x, v);
        lemma_moment_spread(value, weights, d, e.y, v);
        lemma_moment_spread(value, weights, d, e.z, v);
        crate::models::motions::lemma_dot_swapped(v, s.x);
        crate::models::motions::lemma_dot_swapped(v, s.y);
        crate::models::motions::lemma_dot_swapped(v, s.z);
        lemma_moment_symmetric(value, weights, d, e.x, v);
        lemma_moment_symmetric(value, weights, d, e.y, v);
        lemma_moment_symmetric(value, weights, d, e.z, v);
        assert(y == moments(value, weights, d, v));
        lemma_moment_spread(value, weights, d, v, v);
        lemma_moment_nonnegative(value, weights, d, v);
    }
}

/// The sum of weighted numbers.
pub open spec fn weighted<T>(value: spec_fn(T) -> real, weights: Seq<T>, p: Seq<real>) -> real
    decreases p.len(),
{
    if p.len() == 0 {
        0 as real
    } else {
        weighted(value, weights.drop_last(), p.drop_last()) + value(weights.last()) * p.last()
    }
}

proof fn lemma_weighted_affine<T>(
    value: spec_fn(T) -> real,
    weights: Seq<T>,
    xs: Seq<real>,
    ys: Seq<real>,
    zs: Seq<real>,
    p: Seq<real>,
    u: Shift,
    k: real,
)
    requires
        weights.len() == p.len(),
        xs.len() == p.len(),
        ys.len() == p.len(),
        zs.len() == p.len(),
        forall|i: int|
            0 <= i < p.len() ==> #[trigger] p[i] == u.x * xs[i] + u.y * ys[i] + u.z * zs[i] + k,
    ensures
        weighted(value, weights, p) == u.x * weighted(value, weights, xs) + u.y * weighted(
            value,
            weights,
            ys,
        ) + u.z * weighted(value, weights, zs) + k * crate::utils::shares::exact_total(
            value,
            weights,
        ),
    decreases p.len(),
{
    let o = 0 as real;
    let (a, b, c) = (u.x, u.y, u.z);
    if p.len() == 0 {
        assert(a * o == o && b * o == o && c * o == o && k * o == o) by (nonlinear_arith)
            requires
                o == 0 as real,
        ;
    } else {
        let n = p.len() - 1;
        let front = p.drop_last();
        assert forall|i: int| 0 <= i < front.len() implies #[trigger] front[i] == u.x
            * xs.drop_last()[i] + u.y * ys.drop_last()[i] + u.z * zs.drop_last()[i] + k by {
            assert(front[i] == p[i]);
        }
        lemma_weighted_affine(
            value,
            weights.drop_last(),
            xs.drop_last(),
            ys.drop_last(),
            zs.drop_last(),
            front,
            u,
            k,
        );
        let w = value(weights.last());
        let (x, y, z) = (xs[n], ys[n], zs[n]);
        assert(p[n] == a * x + b * y + c * z + k);
        lemma_added(a, weighted(value, weights.drop_last(), xs.drop_last()), w, x);
        lemma_added(b, weighted(value, weights.drop_last(), ys.drop_last()), w, y);
        lemma_added(c, weighted(value, weights.drop_last(), zs.drop_last()), w, z);
        let total = crate::utils::shares::exact_total(value, weights.drop_last());
        assert(k * (total + w) == k * total + w * k) by (nonlinear_arith);
        let (l, m, h) = (a * x, b * y, c * z);
        assert(w * (l + m + h + k) == w * l + w * m + w * h + w * k) by (nonlinear_arith);
    }
}

/// The sum of signed products, from nothing.
pub open spec fn exact_run<T>(value: spec_fn(T) -> real, terms: Seq<SignedProduct<T>>) -> real
    decreases terms.len(),
{
    if terms.len() == 0 {
        0 as real
    } else {
        exact_run(value, terms.drop_last()) + crate::rotation_laws::signed(value, terms.last())
    }
}

/// In exact arithmetic a running sum is the sum.
pub proof fn lemma_run<T, O: Arithmetic<T>>(
    ops: &O,
    zero: T,
    terms: Seq<SignedProduct<T>>,
    r: T,
    value: spec_fn(T) -> real,
)
    requires
        crate::scalar::is_exact(ops, value),
        value(zero) == 0 as real,
        crate::registration::is_running_sum(ops, zero, terms, r),
    ensures
        value(r) == exact_run(value, terms),
    decreases terms.len(),
{
    if terms.len() > 0 {
        let before = choose|before: T|
            crate::registration::is_running_sum(ops, zero, terms.drop_last(), before)
                && #[trigger] crate::rotation::is_step(ops, before, terms.last(), r);
        lemma_run(ops, zero, terms.drop_last(), before, value);
    }
}

proof fn lemma_run_weighted<T>(
    value: spec_fn(T) -> real,
    weights: Seq<T>,
    right: Seq<T>,
    p: Seq<real>,
)
    requires
        weights.len() == p.len(),
        right.len() == p.len(),
        forall|i: int| 0 <= i < p.len() ==> #[trigger] p[i] == value(right[i]),
    ensures
        exact_run(value, crate::registration::pairs(weights, right)) == weighted(
            value,
            weights,
            p,
        ),
    decreases p.len(),
{
    if p.len() > 0 {
        let front = p.drop_last();
        let less = right.drop_last();
        assert forall|i: int| 0 <= i < front.len() implies #[trigger] front[i] == value(
            less[i],
        ) by {
            assert(front[i] == p[i]);
        }
        lemma_run_weighted(value, weights.drop_last(), less, front);
        let terms = crate::registration::pairs(weights, right);
        assert(terms.drop_last() =~= crate::registration::pairs(weights.drop_last(), less));
        assert(p[p.len() - 1] == value(right[p.len() - 1]));
    }
}

proof fn lemma_run_moment<T>(
    value: spec_fn(T) -> real,
    weights: Seq<T>,
    left: Seq<T>,
    right: Seq<T>,
    d: Seq<Shift>,
    u: Shift,
    v: Shift,
)
    requires
        weights.len() == d.len(),
        left.len() == d.len(),
        right.len() == d.len(),
        forall|i: int|
            0 <= i < left.len() ==> value(#[trigger] left[i]) == value(weights[i])
                * crate::models::motions::dot(u, d[i]),
        forall|i: int|
            0 <= i < right.len() ==> value(#[trigger] right[i]) == crate::models::motions::dot(
                v,
                d[i],
            ),
    ensures
        exact_run(value, crate::registration::pairs(left, right)) == moment(
            value,
            weights,
            d,
            u,
            v,
        ),
    decreases d.len(),
{
    if d.len() > 0 {
        let (w, l, r, f) = (
            weights.drop_last(),
            left.drop_last(),
            right.drop_last(),
            d.drop_last(),
        );
        assert forall|i: int| 0 <= i < l.len() implies value(#[trigger] l[i]) == value(w[i])
            * crate::models::motions::dot(u, f[i]) by {
            assert(l[i] == left[i]);
        }
        assert forall|i: int|
            0 <= i < r.len() implies value(#[trigger] r[i]) == crate::models::motions::dot(
            v,
            f[i],
        ) by {
            assert(r[i] == right[i]);
        }
        lemma_run_moment(value, w, l, r, f, u, v);
        let terms = crate::registration::pairs(left, right);
        assert(terms.drop_last() =~= crate::registration::pairs(l, r));
        let n = d.len() - 1;
        assert(terms.last() == crate::rotation::added(left[n], right[n]));
    }
}

/// One coordinate of the first `n` points.
pub open spec fn coordinates<T>(
    value: spec_fn(T) -> real,
    points: Seq<[T; 3]>,
    n: nat,
    c: int,
) -> Seq<real> {
    Seq::new(n, |i: int| value(points[i]@[c]))
}

/// In exact arithmetic a centre is the weighted sum times the share.
pub proof fn lemma_centre<T, O: Arithmetic<T>>(
    ops: &O,
    zero: T,
    points: Seq<[T; 3]>,
    weights: Seq<T>,
    share: T,
    c: int,
    r: T,
    value: spec_fn(T) -> real,
)
    requires
        crate::scalar::is_exact(ops, value),
        value(zero) == 0 as real,
        crate::registration::is_centre_coordinate(
            ops,
            zero,
            points,
            weights.len(),
            weights,
            share,
            c,
            r,
        ),
    ensures
        value(r) == weighted(value, weights, coordinates(value, points, weights.len(), c)) * value(
            share,
        ),
{
    let n = weights.len();
    let xs = crate::registration::coordinate(points, n, c);
    let sum = choose|sum: T|
        crate::registration::is_running_sum(
            ops,
            zero,
            crate::registration::pairs(weights.take(n as int), xs),
            sum,
        ) && #[trigger] crate::scalar::product_of(ops, sum, share, r);
    assert(weights.take(n as int) =~= weights);
    lemma_run(ops, zero, crate::registration::pairs(weights, xs), sum, value);
    lemma_run_weighted(value, weights, xs, coordinates(value, points, n, c));
}

/// The motion takes the first points to the second.
pub open spec fn moves<T>(
    value: spec_fn(T) -> real,
    src: Seq<[T; 3]>,
    tgt: Seq<[T; 3]>,
    r: Turn,
    t: Shift,
) -> bool {
    forall|i: int|
        0 <= i < src.len() ==> crate::models::motions::row_seen(value, (#[trigger] tgt[i])@)
            == crate::models::motions::plus(
            crate::models::motions::applied(
                r,
                crate::models::motions::row_seen(value, src[i]@),
            ),
            t,
        )
}

proof fn lemma_shared(a: real, b: real, c: real, x: real, y: real, z: real, k: real, s: real, q: real)
    requires
        s * q == 1 as real,
    ensures
        (a * x + b * y + c * z + k * s) * q == a * (x * q) + b * (y * q) + c * (z * q) + k,
{
    let (l, m, n, h) = (a * x, b * y, c * z, k * s);
    assert((l + m + n + h) * q == l * q + m * q + n * q + h * q) by (nonlinear_arith);
    assert(l * q == a * (x * q)) by (nonlinear_arith)
        requires
            l == a * x,
    ;
    assert(m * q == b * (y * q)) by (nonlinear_arith)
        requires
            m == b * y,
    ;
    assert(n * q == c * (z * q)) by (nonlinear_arith)
        requires
            n == c * z,
    ;
    let e = s * q;
    assert(h * q == k * e) by (nonlinear_arith)
        requires
            h == k * s,
            e == s * q,
    ;
    assert(k * e == k) by (nonlinear_arith)
        requires
            e == 1 as real,
    ;
}

/// The centre moves with the points.
proof fn lemma_centre_moves<T, O: Arithmetic<T>>(
    ops: &O,
    zero: T,
    src: Seq<[T; 3]>,
    tgt: Seq<[T; 3]>,
    weights: Seq<T>,
    share: T,
    from: Seq<T>,
    to: Seq<T>,
    r: Turn,
    t: Shift,
    c: int,
    value: spec_fn(T) -> real,
)
    requires
        crate::scalar::is_exact(ops, value),
        value(zero) == 0 as real,
        src.len() == weights.len(),
        crate::registration::is_centre(ops, zero, src, src.len(), weights, share, from),
        crate::registration::is_centre(ops, zero, tgt, src.len(), weights, share, to),
        crate::utils::shares::exact_total(value, weights) * value(share) == 1 as real,
        moves(value, src, tgt, r, t),
        0 <= c < 3,
    ensures
        value(to[c]) == crate::models::motions::dot(
            row(r, c),
            crate::models::motions::row_seen(value, from),
        ) + along(t, c),
{
    let n = src.len();
    let xs = coordinates(value, src, n, 0);
    let ys = coordinates(value, src, n, 1);
    let zs = coordinates(value, src, n, 2);
    let p = coordinates(value, tgt, n, c);
    lemma_centre(ops, zero, src, weights, share, 0, from[0], value);
    lemma_centre(ops, zero, src, weights, share, 1, from[1], value);
    lemma_centre(ops, zero, src, weights, share, 2, from[2], value);
    lemma_centre(ops, zero, tgt, weights, share, c, to[c], value);
    let u = row(r, c);
    let k = along(t, c);
    assert forall|i: int| 0 <= i < p.len() implies #[trigger] p[i] == u.x * xs[i] + u.y * ys[i]
        + u.z * zs[i] + k by {
        let q = tgt[i];
        assert(crate::models::motions::row_seen(value, q@) == crate::models::motions::plus(
            crate::models::motions::applied(
                r,
                crate::models::motions::row_seen(value, src[i]@),
            ),
            t,
        ));
        assert(p[i] == value(q@[c]));
        assert(c == 0 || c == 1 || c == 2);
    }
    lemma_weighted_affine(value, weights, xs, ys, zs, p, u, k);
    lemma_shared(
        u.x,
        u.y,
        u.z,
        weighted(value, weights, xs),
        weighted(value, weights, ys),
        weighted(value, weights, zs),
        k,
        crate::utils::shares::exact_total(value, weights),
        value(share),
    );
}

/// The points as seen from their centre.
pub open spec fn offsets_of<T>(
    value: spec_fn(T) -> real,
    src: Seq<[T; 3]>,
    from: Seq<T>,
) -> Seq<Shift> {
    Seq::new(
        src.len(),
        |i: int|
            crate::models::motions::plus(
                crate::models::motions::row_seen(value, src[i]@),
                crate::models::motions::minus(crate::models::motions::row_seen(value, from)),
            ),
    )
}

proof fn lemma_covariance<T, O: Arithmetic<T>>(
    ops: &O,
    zero: T,
    src: Seq<[T; 3]>,
    tgt: Seq<[T; 3]>,
    weights: Seq<T>,
    from: Seq<T>,
    to: Seq<T>,
    turn: Turn,
    t: Shift,
    r: int,
    c: int,
    h: T,
    value: spec_fn(T) -> real,
)
    requires
        crate::scalar::is_exact(ops, value),
        value(zero) == 0 as real,
        src.len() == weights.len(),
        moves(value, src, tgt, turn, t),
        0 <= r < 3,
        0 <= c < 3,
        value(to[c]) == crate::models::motions::dot(
            row(turn, c),
            crate::models::motions::row_seen(value, from),
        ) + along(t, c),
        crate::registration::is_covariance(
            ops,
            zero,
            src,
            tgt,
            src.len(),
            weights,
            from,
            to,
            r,
            c,
            h,
        ),
    ensures
        value(h) == moment(
            value,
            weights,
            offsets_of(value, src, from),
            row(crate::models::motions::straight(), r),
            row(turn, c),
        ),
{
    let n = src.len();
    let (dx, wx, dy) = choose|dx: Seq<T>, wx: Seq<T>, dy: Seq<T>|
        {
            &&& #[trigger] crate::registration::are_offsets(ops, src, n, r, from[r], dx)
            &&& #[trigger] crate::registration::are_scaled(ops, weights, dx, wx)
            &&& #[trigger] crate::registration::are_offsets(ops, tgt, n, c, to[c], dy)
            &&& crate::registration::is_running_sum(
                ops,
                zero,
                crate::registration::pairs(wx, dy),
                h,
            )
        };
    let d = offsets_of(value, src, from);
    let e = row(crate::models::motions::straight(), r);
    let u = row(turn, c);
    let centre = crate::models::motions::row_seen(value, from);
    assert forall|i: int| 0 <= i < wx.len() implies value(#[trigger] wx[i]) == value(weights[i])
        * crate::models::motions::dot(e, d[i]) by {
        assert(crate::scalar::product_of(ops, weights[i], dx[i], wx[i]));
        assert(crate::scalar::difference_of(ops, src[i]@[r], from[r], dx[i]));
        crate::models::motions::lemma_dot_units(d[i]);
        assert(r == 0 || r == 1 || r == 2);
    }
    assert forall|i: int|
        0 <= i < dy.len() implies value(#[trigger] dy[i]) == crate::models::motions::dot(
        u,
        d[i],
    ) by {
        let q = tgt[i];
        let p = crate::models::motions::row_seen(value, src[i]@);
        assert(crate::scalar::difference_of(ops, q@[c], to[c], dy[i]));
        assert(crate::models::motions::row_seen(value, q@) == crate::models::motions::plus(
            crate::models::motions::applied(turn, p),
            t,
        ));
        crate::models::motions::lemma_dot_plus(u, p, crate::models::motions::minus(centre));
        crate::models::motions::lemma_dot_minus(u, centre);
        assert(c == 0 || c == 1 || c == 2);
    }
    lemma_run(ops, zero, crate::registration::pairs(wx, dy), h, value);
    lemma_run_moment(value, weights, wx, dy, d, e, u);
}

/// A decomposition gives orthogonal factors with sorted stretches between
/// them, and signs and reciprocals are exact.
pub open spec fn registers_exactly<T, O: RegistrationOps<T>>(
    ops: &O,
    value: spec_fn(T) -> real,
) -> bool {
    &&& crate::registration::proper_laws::factors_exactly(ops, value)
    &&& crate::scalar::tells_signs(ops, value)
    &&& forall|a: T, r: T| #[trigger]
        call_ensures(O::reciprocal, (ops, a), r) && value(a) != 0 as real ==> value(a) * value(r)
            == 1 as real
    &&& forall|m: [[T; 3]; 3], f: ([[T; 3]; 3], [[T; 3]; 3])| #[trigger]
        call_ensures(O::factors, (ops, &m), f) ==> exists|s: Shift| #[trigger]
            crate::registration::polar_laws::is_decomposition(
                crate::models::turn_laws::turn_of(value, crate::rotation::rows3(m)),
                crate::models::turn_laws::turn_of(value, crate::rotation::rows3(f.0)),
                s,
                crate::models::turn_laws::turn_of(value, crate::rotation::rows3(f.1)),
            )
}

/// In exact arithmetic the share is the inverse of the sum of the weights.
pub proof fn lemma_share<T, O: RegistrationOps<T>>(
    ops: &O,
    zero: T,
    one: T,
    weights: Seq<T>,
    share: T,
    value: spec_fn(T) -> real,
)
    requires
        crate::scalar::is_exact(ops, value),
        registers_exactly(ops, value),
        value(zero) == 0 as real,
        crate::utils::shares::exact_total(value, weights) > 0 as real,
        crate::registration::is_share(ops, zero, one, weights, share),
    ensures
        crate::utils::shares::exact_total(value, weights) * value(share) == 1 as real,
{
    let sum = choose|sum: T| #[trigger]
        crate::utils::shares::is_total(ops, zero, weights, sum) && {
            ||| crate::scalar::says_positive(ops, sum, true) && call_ensures(
                O::reciprocal,
                (ops, sum),
                share,
            )
            ||| crate::scalar::says_positive(ops, sum, false) && share == one
        };
    crate::utils::shares::lemma_exact_total(ops, zero, weights, sum, value);
}

/// The centres move, and the covariance is the scatter of the first points,
/// turned back.
proof fn lemma_turned_scatter<T, O: RegistrationOps<T>>(
    ops: &O,
    zero: T,
    one: T,
    src: Seq<[T; 3]>,
    tgt: Seq<[T; 3]>,
    weights: Seq<T>,
    steps: Steps<T>,
    rigid: Rigid<T>,
    r: Turn,
    t: Shift,
    value: spec_fn(T) -> real,
)
    requires
        crate::scalar::is_exact(ops, value),
        value(zero) == 0 as real,
        src.len() == weights.len(),
        crate::utils::shares::exact_total(value, weights) * value(steps.share) == 1 as real,
        moves(value, src, tgt, r, t),
        crate::registration::are_steps(ops, zero, one, src, tgt, weights, steps, rigid),
    ensures
        forall|c: int|
            0 <= c < 3 ==> value(#[trigger] steps.to@[c]) == crate::models::motions::dot(
                row(r, c),
                crate::models::motions::row_seen(value, steps.from@),
            ) + along(t, c),
        crate::models::turn_laws::turn_of(value, crate::rotation::rows3(steps.covariance))
            == crate::models::motions::turns(
            scatter(value, weights, offsets_of(value, src, steps.from@)),
            crate::models::motions::transposed(r),
        ),
{
    let (from, to) = (steps.from@, steps.to@);
    let d = offsets_of(value, src, from);
    let s = scatter(value, weights, d);
    let e = crate::models::motions::straight();
    assert forall|c: int| 0 <= c < 3 implies value(#[trigger] to[c])
        == crate::models::motions::dot(
        row(r, c),
        crate::models::motions::row_seen(value, from),
    ) + along(t, c) by {
        lemma_centre_moves(
            ops,
            zero,
            src,
            tgt,
            weights,
            steps.share,
            from,
            to,
            r,
            t,
            c,
            value,
        );
    }
    assert forall|i: int, c: int| 0 <= i < 3 && 0 <= c < 3 implies value(
        #[trigger] steps.covariance@[i]@[c],
    ) == crate::models::motions::dot(row(s, i), row(r, c)) by {
        assert(value(to[c]) == crate::models::motions::dot(
            row(r, c),
            crate::models::motions::row_seen(value, from),
        ) + along(t, c));
        lemma_covariance(
            ops,
            zero,
            src,
            tgt,
            weights,
            from,
            to,
            r,
            t,
            i,
            c,
            steps.covariance@[i]@[c],
            value,
        );
        lemma_moment_spread(value, weights, d, row(e, i), row(r, c));
        crate::models::motions::lemma_dot_swapped(row(r, c), row(s, i));
        assert(i == 0 || i == 1 || i == 2);
        assert(row(s, i) == moments(value, weights, d, row(e, i)));
    }
    lemma_entries(value, steps.covariance, s, r);
}

proof fn lemma_entries<T>(value: spec_fn(T) -> real, m: [[T; 3]; 3], s: Turn, r: Turn)
    requires
        forall|i: int, c: int|
            0 <= i < 3 && 0 <= c < 3 ==> value(#[trigger] m@[i]@[c])
                == crate::models::motions::dot(row(s, i), row(r, c)),
    ensures
        crate::models::turn_laws::turn_of(value, crate::rotation::rows3(m))
            == crate::models::motions::turns(s, crate::models::motions::transposed(r)),
{
    let back = crate::models::motions::transposed(r);
    let g = crate::models::motions::turns(s, back);
    let h = crate::models::turn_laws::turn_of(value, crate::rotation::rows3(m));
    assert(crate::models::motions::transposed(back) == r);
    assert(value(m@[0]@[0]) == g.x.x && value(m@[0]@[1]) == g.x.y && value(m@[0]@[2]) == g.x.z);
    assert(value(m@[1]@[0]) == g.y.x && value(m@[1]@[1]) == g.y.y && value(m@[1]@[2]) == g.y.z);
    assert(value(m@[2]@[0]) == g.z.x && value(m@[2]@[1]) == g.z.y && value(m@[2]@[2]) == g.z.z);
    assert(h.x == g.x && h.y == g.y && h.z == g.z);
}

/// The best rotation of a scatter that was turned back is the turn.
proof fn lemma_best_rotation<T, O: RegistrationOps<T>>(
    ops: &O,
    zero: T,
    one: T,
    m: [[T; 3]; 3],
    turned: Seq<Seq<T>>,
    s: Turn,
    r: Turn,
    value: spec_fn(T) -> real,
)
    requires
        crate::scalar::is_exact(ops, value),
        registers_exactly(ops, value),
        value(zero) == 0 as real,
        value(one) == 1 as real,
        crate::registration::proper_laws::is_proper_turn(r),
        crate::registration::polar_laws::is_symmetric(s),
        crate::registration::polar_laws::is_nonnegative(s),
        crate::models::turn_laws::turn_of(value, crate::rotation::rows3(m))
            == crate::models::motions::turns(s, crate::models::motions::transposed(r)),
        crate::registration::polar_laws::spans(
            crate::models::turn_laws::turn_of(value, crate::rotation::rows3(m)),
        ),
        crate::registration::proper::is_best_rotation(ops, zero, one, m, turned),
    ensures
        crate::models::turn_laws::turn_of(value, turned) == r,
{
    let h = crate::models::turn_laws::turn_of(value, crate::rotation::rows3(m));
    let f = choose|f: ([[T; 3]; 3], [[T; 3]; 3])| #[trigger]
        call_ensures(O::factors, (ops, &m), f) && crate::registration::proper::is_proper(
            ops,
            zero,
            one,
            crate::rotation::transposed(crate::rotation::rows3(f.1)),
            crate::rotation::transposed(crate::rotation::rows3(f.0)),
            turned,
        );
    let (a, b) = (crate::rotation::rows3(f.0), crate::rotation::rows3(f.1));
    let u = crate::models::turn_laws::turn_of(value, a);
    let v = crate::models::turn_laws::turn_of(value, b);
    let k = choose|k: Shift| #[trigger]
        crate::registration::polar_laws::is_decomposition(h, u, k, v);
    crate::registration::polar_laws::lemma_two_stretches(h, u, k, v);
    crate::registration::polar_laws::law_rotation_from_factors(s, r, u, k, v);
    crate::registration::proper_laws::law_exact_proper(
        ops,
        zero,
        one,
        crate::rotation::transposed(b),
        crate::rotation::transposed(a),
        turned,
        value,
    );
    assert(crate::models::turn_laws::turn_of(value, crate::rotation::transposed(a))
        == crate::models::motions::transposed(u));
    assert(crate::models::turn_laws::turn_of(value, crate::rotation::transposed(b))
        == crate::models::motions::transposed(v));
}

/// In exact arithmetic a registration finds the rigid motion that takes the
/// first points to the second, where the weights are not negative and not all
/// zero, and the points that count are not all on one line.
pub proof fn law_registration_recovers<T, O: RegistrationOps<T>>(
    ops: &O,
    zero: T,
    one: T,
    src: Seq<[T; 3]>,
    tgt: Seq<[T; 3]>,
    weights: Seq<T>,
    steps: Steps<T>,
    rigid: Rigid<T>,
    r: Turn,
    t: Shift,
    value: spec_fn(T) -> real,
)
    requires
        crate::scalar::is_exact(ops, value),
        registers_exactly(ops, value),
        value(zero) == 0 as real,
        value(one) == 1 as real,
        src.len() == weights.len(),
        weighs(value, weights),
        crate::utils::shares::exact_total(value, weights) > 0 as real,
        crate::registration::proper_laws::is_proper_turn(r),
        moves(value, src, tgt, r, t),
        crate::registration::are_steps(ops, zero, one, src, tgt, weights, steps, rigid),
        crate::registration::polar_laws::spans(
            crate::models::turn_laws::turn_of(
                value,
                crate::rotation::rows3(steps.covariance),
            ),
        ),
    ensures
        crate::models::turn_laws::turn_of(value, crate::rotation::rows3(rigid.rotation)) == r,
        crate::models::motions::row_seen(value, rigid.translation@) == t,
{
    let d = offsets_of(value, src, steps.from@);
    let s = scatter(value, weights, d);
    let turned = crate::rotation::rows3(rigid.rotation);
    lemma_share(ops, zero, one, weights, steps.share, value);
    lemma_turned_scatter(
        ops,
        zero,
        one,
        src,
        tgt,
        weights,
        steps,
        rigid,
        r,
        t,
        value,
    );
    lemma_scatter(value, weights, d);
    lemma_best_rotation(ops, zero, one, steps.covariance, turned, s, r, value);
    assert forall|c: int| 0 <= c < 3 implies value(#[trigger] rigid.translation@[c]) == along(
        t,
        c,
    ) by {
        crate::registration::law_centre_to_centre(
            ops,
            zero,
            one,
            src,
            tgt,
            weights,
            steps,
            rigid,
            value,
            c,
        );
        assert(turned[c] == rigid.rotation@[c]@);
        assert(c == 0 || c == 1 || c == 2);
        assert(value(steps.to@[c]) == crate::models::motions::dot(
            row(r, c),
            crate::models::motions::row_seen(value, steps.from@),
        ) + along(t, c));
    }
    assert(value(rigid.translation@[0]) == t.x && value(rigid.translation@[1]) == t.y && value(
        rigid.translation@[2],
    ) == t.z);
}

} // verus!
