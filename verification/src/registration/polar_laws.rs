//! What a decomposition says of a rotation: a symmetric map without negative
//! directions, turned, is told apart from the turn.
use vstd::prelude::*;

use crate::models::motions::{Shift, Turn};

verus! {

/// The map that stretches along the axes.
pub open spec fn diagonal(s: Shift) -> Turn {
    let o = 0 as real;
    Turn {
        x: Shift { x: s.x, y: o, z: o },
        y: Shift { x: o, y: s.y, z: o },
        z: Shift { x: o, y: o, z: s.z },
    }
}

pub open spec fn is_symmetric(t: Turn) -> bool {
    crate::models::motions::transposed(t) == t
}

/// No vector is turned against itself.
pub open spec fn is_nonnegative(t: Turn) -> bool {
    forall|v: Shift|
        crate::models::motions::dot(v, #[trigger] crate::models::motions::applied(t, v))
            >= 0 as real
}

proof fn lemma_nothing(a: real)
    ensures
        0 as real * a == 0 as real,
        a * 0 as real == 0 as real,
{
    let o = 0 as real;
    assert(o * a == o && a * o == o) by (nonlinear_arith)
        requires
            o == 0 as real,
    ;
}

proof fn lemma_diagonal_rows(s: Shift, w: Turn)
    ensures
        crate::models::motions::turns(diagonal(s), w) == (Turn {
            x: crate::models::turn_laws::scaled(s.x, w.x),
            y: crate::models::turn_laws::scaled(s.y, w.y),
            z: crate::models::turn_laws::scaled(s.z, w.z),
        }),
{
    lemma_nothing(w.x.x);
    lemma_nothing(w.x.y);
    lemma_nothing(w.x.z);
    lemma_nothing(w.y.x);
    lemma_nothing(w.y.y);
    lemma_nothing(w.y.z);
    lemma_nothing(w.z.x);
    lemma_nothing(w.z.y);
    lemma_nothing(w.z.z);
    let p = crate::models::motions::turns(diagonal(s), w);
    let q = Turn {
        x: crate::models::turn_laws::scaled(s.x, w.x),
        y: crate::models::turn_laws::scaled(s.y, w.y),
        z: crate::models::turn_laws::scaled(s.z, w.z),
    };
    assert(p.x == q.x && p.y == q.y && p.z == q.z);
}

/// A vector that is turned against itself is none.
proof fn lemma_vanishes(a: real, b: real, c: real, s: real)
    requires
        s > 0 as real,
        -s * (a * a) + -s * (b * b) + -s * (c * c) >= 0 as real,
    ensures
        a == 0 as real,
        b == 0 as real,
        c == 0 as real,
{
    let (p, q, r) = (a * a, b * b, c * c);
    assert(p >= 0 as real) by (nonlinear_arith)
        requires
            p == a * a,
    ;
    assert(q >= 0 as real) by (nonlinear_arith)
        requires
            q == b * b,
    ;
    assert(r >= 0 as real) by (nonlinear_arith)
        requires
            r == c * c,
    ;
    let t = p + q + r;
    assert(-s * p + -s * q + -s * r == -(s * t)) by (nonlinear_arith)
        requires
            t == p + q + r,
    ;
    assert(t <= 0 as real) by (nonlinear_arith)
        requires
            s > 0 as real,
            -(s * t) >= 0 as real,
    ;
    assert(a == 0 as real) by (nonlinear_arith)
        requires
            a * a == 0 as real,
    ;
    assert(b == 0 as real) by (nonlinear_arith)
        requires
            b * b == 0 as real,
    ;
    assert(c == 0 as real) by (nonlinear_arith)
        requires
            c * c == 0 as real,
    ;
}

proof fn lemma_off(p: Shift, r: Shift, e: Shift, s: real)
    ensures
        crate::models::motions::dot(
            p,
            crate::models::motions::plus(
                r,
                crate::models::motions::minus(crate::models::turn_laws::scaled(s, e)),
            ),
        ) == crate::models::motions::dot(p, r) - s * crate::models::motions::dot(p, e),
{
    let u = crate::models::turn_laws::scaled(s, e);
    crate::models::motions::lemma_dot_plus(p, r, crate::models::motions::minus(u));
    crate::models::motions::lemma_dot_minus(p, u);
    crate::models::turn_laws::lemma_dot_scaled(1 as real, p, s, e);
    let (a, b, c) = (p.x, p.y, p.z);
    let i = 1 as real;
    assert(i * a == a && i * b == b && i * c == c && i * s == s) by (nonlinear_arith)
        requires
            i == 1 as real,
    ;
    assert(crate::models::turn_laws::scaled(i, p) == p);
}

/// Where the map takes `e` to `r`, and `r` to `e` times the square of `s`, `r`
/// is `e` times `s`.
proof fn lemma_root(p: Turn, r: Shift, e: Shift, s: real)
    requires
        is_nonnegative(p),
        s > 0 as real,
        crate::models::motions::applied(p, e) == r,
        crate::models::motions::applied(p, r) == crate::models::turn_laws::scaled(s * s, e),
    ensures
        r == crate::models::turn_laws::scaled(s, e),
{
    let d = crate::models::motions::plus(
        r,
        crate::models::motions::minus(crate::models::turn_laws::scaled(s, e)),
    );
    lemma_off(p.x, r, e, s);
    lemma_off(p.y, r, e, s);
    lemma_off(p.z, r, e, s);
    let a = crate::models::motions::applied(p, d);
    lemma_against(s, r.x, e.x, d.x);
    lemma_against(s, r.y, e.y, d.y);
    lemma_against(s, r.z, e.z, d.z);
    assert(a.x == -s * d.x && a.y == -s * d.y && a.z == -s * d.z);
    let (x, y, z) = (d.x, d.y, d.z);
    assert(x * (-s * x) == -s * (x * x)) by (nonlinear_arith);
    assert(y * (-s * y) == -s * (y * y)) by (nonlinear_arith);
    assert(z * (-s * z) == -s * (z * z)) by (nonlinear_arith);
    assert(crate::models::motions::dot(d, a) >= 0 as real);
    lemma_vanishes(x, y, z, s);
}

proof fn lemma_against(s: real, r: real, e: real, d: real)
    requires
        d == r + -(s * e),
    ensures
        (s * s) * e - s * r == -s * d,
{
    let p = s * e;
    assert((s * s) * e == s * p) by (nonlinear_arith)
        requires
            p == s * e,
    ;
    assert(s * p - s * r == -s * d) by (nonlinear_arith)
        requires
            d == r + -p,
    ;
}

proof fn lemma_unscaled(s: real, w: real, e: real)
    requires
        s > 0 as real,
        s * w == s * e,
    ensures
        w == e,
{
    let d = w - e;
    assert(s * d == s * w - s * e) by (nonlinear_arith)
        requires
            d == w - e,
    ;
    assert(d == 0 as real) by (nonlinear_arith)
        requires
            s > 0 as real,
            s * d == 0 as real,
    ;
}

/// The rows that a symmetric, nonnegative product of stretches and a turn
/// leaves in place.
proof fn lemma_unturned(p: Turn, s: Shift, w: Turn)
    requires
        is_symmetric(p),
        is_nonnegative(p),
        crate::models::motions::is_orthogonal(w),
        p == crate::models::motions::turns(diagonal(s), w),
        s.x > 0 as real,
        s.y > 0 as real,
    ensures
        w.x == crate::models::motions::straight().x,
        w.y == crate::models::motions::straight().y,
{
    let e = crate::models::motions::straight();
    let g = diagonal(s);
    let back = crate::models::motions::transposed(w);
    lemma_diagonal_rows(s, w);
    // The square of the map is that of the stretches.
    crate::models::motions::lemma_transposed_product(g, w);
    assert(crate::models::motions::transposed(g) == g);
    crate::models::motions::lemma_turns_associate(g, w, crate::models::motions::turns(back, g));
    crate::models::motions::lemma_turns_associate(w, back, g);
    crate::models::motions::lemma_straight(g);
    lemma_diagonal_rows(s, g);
    let square = crate::models::motions::turns(p, p);
    assert(square == crate::models::motions::turns(g, g));
    lemma_nothing(s.x);
    lemma_nothing(s.y);
    lemma_nothing(s.z);
    crate::models::motions::lemma_dot_swapped(p.x, p.y);
    crate::models::motions::lemma_dot_swapped(p.x, p.z);
    crate::models::motions::lemma_dot_swapped(p.y, p.z);
    let (a, b) = (s.x * s.x, s.y * s.y);
    let (o, i) = (0 as real, 1 as real);
    assert(a * i == a && a * o == o && b * i == b && b * o == o) by (nonlinear_arith)
        requires
            o == 0 as real,
            i == 1 as real,
    ;
    assert(square.x == crate::models::turn_laws::scaled(a, e.x));
    assert(square.y == crate::models::turn_laws::scaled(b, e.y));
    crate::models::motions::lemma_dot_units(p.x);
    crate::models::motions::lemma_dot_units(p.y);
    crate::models::motions::lemma_dot_units(p.z);
    let q = crate::models::motions::transposed(p);
    assert(crate::models::motions::applied(p, p.x) == square.x);
    assert(crate::models::motions::applied(p, p.y) == square.y);
    assert(crate::models::motions::applied(p, e.x) == q.x);
    assert(crate::models::motions::applied(p, e.y) == q.y);
    lemma_root(p, p.x, e.x, s.x);
    lemma_root(p, p.y, e.y, s.y);
    lemma_unscaled(s.x, w.x.x, e.x.x);
    lemma_unscaled(s.x, w.x.y, e.x.y);
    lemma_unscaled(s.x, w.x.z, e.x.z);
    lemma_unscaled(s.y, w.y.x, e.y.x);
    lemma_unscaled(s.y, w.y.y, e.y.y);
    lemma_unscaled(s.y, w.y.z, e.y.z);
}

/// A nonnegative map is nonnegative between two turns.
proof fn lemma_between(m: Turn, u: Turn)
    requires
        is_symmetric(m),
        is_nonnegative(m),
    ensures
        ({
            let p = crate::models::motions::turns(
                crate::models::motions::transposed(u),
                crate::models::motions::turns(m, u),
            );
            is_symmetric(p) && is_nonnegative(p)
        }),
{
    let back = crate::models::motions::transposed(u);
    let q = crate::models::motions::turns(m, u);
    let p = crate::models::motions::turns(back, q);
    crate::models::motions::lemma_transposed_product(back, q);
    crate::models::motions::lemma_transposed_product(m, u);
    crate::models::motions::lemma_turns_associate(back, m, u);
    assert(crate::models::motions::transposed(back) == u);
    assert forall|v: Shift|
        crate::models::motions::dot(v, #[trigger] crate::models::motions::applied(p, v))
            >= 0 as real by {
        let y = crate::models::motions::applied(u, v);
        let z = crate::models::motions::applied(m, y);
        crate::models::motions::lemma_applied_twice(back, q, v);
        crate::models::motions::lemma_applied_twice(m, u, v);
        crate::models::motions::lemma_dot_three(v, back, z);
        crate::models::motions::lemma_dot_swapped(v, u.x);
        crate::models::motions::lemma_dot_swapped(v, u.y);
        crate::models::motions::lemma_dot_swapped(v, u.z);
        assert(crate::models::motions::row_times(v, back) == y);
        assert(crate::models::motions::dot(y, z) >= 0 as real);
    }
}

/// A symmetric, nonnegative map followed by the inverse of a rotation is told
/// apart by its decomposition: the factors, in reverse order and with the sign
/// between them put right, are the rotation.
pub proof fn law_rotation_from_factors(m: Turn, r: Turn, u: Turn, s: Shift, v: Turn)
    requires
        is_symmetric(m),
        is_nonnegative(m),
        crate::registration::proper_laws::is_proper_turn(r),
        crate::models::motions::is_orthogonal(u),
        crate::models::motions::is_orthogonal(v),
        crate::models::motions::turns(m, crate::models::motions::transposed(r))
            == crate::models::motions::turns(
            crate::models::motions::turns(u, diagonal(s)),
            v,
        ),
        s.x > 0 as real,
        s.y > 0 as real,
    ensures
        crate::registration::proper_laws::signed_product(
            crate::models::motions::transposed(v),
            crate::models::motions::transposed(u),
        ) == r,
{
    let g = diagonal(s);
    let (t, l) = (crate::models::motions::transposed(u), crate::models::motions::transposed(v));
    let back = crate::models::motions::transposed(r);
    let h = crate::models::motions::turns(m, back);
    let k = crate::models::motions::turns(v, r);
    let w = crate::models::motions::turns(k, u);
    let gw = crate::models::motions::turns(g, w);
    let p = crate::models::motions::turns(t, crate::models::motions::turns(m, u));
    // m is h r.
    crate::models::motions::lemma_turns_associate(m, back, r);
    crate::models::motions::lemma_straight(m);
    // h r u is u g w.
    crate::models::motions::lemma_turns_associate(crate::models::motions::turns(u, g), v, r);
    crate::models::motions::lemma_turns_associate(u, g, k);
    crate::models::motions::lemma_turns_associate(u, crate::models::motions::turns(g, k), u);
    crate::models::motions::lemma_turns_associate(g, k, u);
    // p is g w.
    crate::models::motions::lemma_turns_associate(t, u, gw);
    crate::models::motions::lemma_straight(gw);
    assert(p == gw);
    lemma_between(m, u);
    crate::models::motions::lemma_product_orthogonal(v, r);
    crate::models::motions::lemma_product_orthogonal(k, u);
    lemma_unturned(p, s, w);
    // w keeps two axes, and so turns the third over at most.
    let c = w.z.z;
    crate::models::motions::lemma_dot_units(w.z);
    let unit = crate::models::motions::turns(w, crate::models::motions::transposed(w));
    assert(unit.x.z == w.z.x && unit.y.z == w.z.y);
    assert(w == crate::registration::proper_laws::signed_straight(c));
    crate::registration::proper_laws::lemma_signed_determinant(c);
    crate::registration::proper_laws::law_orthogonal_determinant(w);
    // The sign is that of the determinant of the factors.
    crate::registration::proper_laws::law_determinant_product(k, u);
    crate::registration::proper_laws::law_determinant_product(v, r);
    crate::registration::proper_laws::law_determinant_product(l, t);
    crate::registration::proper_laws::lemma_transposed_determinant(u);
    crate::registration::proper_laws::lemma_transposed_determinant(v);
    let x = crate::registration::proper_laws::determinant(v);
    let i = 1 as real;
    assert(x * i == x) by (nonlinear_arith)
        requires
            i == 1 as real,
    ;
    assert(crate::registration::proper_laws::determinant(crate::models::motions::turns(l, t)) == c);
    // The factors with w between them are the rotation.
    crate::models::motions::lemma_turns_associate(l, w, t);
    crate::models::motions::lemma_turns_associate(k, u, t);
    crate::models::motions::lemma_straight(k);
    crate::models::motions::lemma_turns_associate(l, v, r);
    crate::models::motions::lemma_straight(r);
}

/// Where all but one stretch vanish, the rows are along one line.
proof fn lemma_one_line(u: Turn, s: Shift, v: Turn)
    requires
        s.y == 0 as real,
        s.z == 0 as real,
    ensures
        ({
            let h = crate::models::motions::turns(
                crate::models::motions::turns(u, diagonal(s)),
                v,
            );
            !spans(h)
        }),
{
    let g = crate::models::motions::turns(u, diagonal(s));
    let h = crate::models::motions::turns(g, v);
    lemma_line_row(u.x, s, v);
    lemma_line_row(u.y, s, v);
    lemma_line_row(u.z, s, v);
    lemma_parallel(u.x.x * s.x, u.y.x * s.x, v.x);
    lemma_parallel(u.y.x * s.x, u.z.x * s.x, v.x);
    lemma_parallel(u.z.x * s.x, u.x.x * s.x, v.x);
}

proof fn lemma_line_row(a: Shift, s: Shift, v: Turn)
    requires
        s.y == 0 as real,
        s.z == 0 as real,
    ensures
        crate::models::motions::row_times(
            crate::models::motions::row_times(a, diagonal(s)),
            v,
        ) == crate::models::turn_laws::scaled(a.x * s.x, v.x),
{
    lemma_nothing(a.x);
    lemma_nothing(a.y);
    lemma_nothing(a.z);
    let r = crate::models::motions::row_times(a, diagonal(s));
    assert(r.x == a.x * s.x && r.y == 0 as real && r.z == 0 as real);
    lemma_nothing(v.y.x);
    lemma_nothing(v.y.y);
    lemma_nothing(v.y.z);
    lemma_nothing(v.z.x);
    lemma_nothing(v.z.y);
    lemma_nothing(v.z.z);
}

proof fn lemma_parallel(a: real, b: real, v: Shift)
    ensures
        crate::registration::proper_laws::cross(
            crate::models::turn_laws::scaled(a, v),
            crate::models::turn_laws::scaled(b, v),
        ) == crate::models::motions::origin(),
{
    let (x, y, z) = (v.x, v.y, v.z);
    assert((a * y) * (b * z) == (a * z) * (b * y)) by (nonlinear_arith);
    assert((a * z) * (b * x) == (a * x) * (b * z)) by (nonlinear_arith);
    assert((a * x) * (b * y) == (a * y) * (b * x)) by (nonlinear_arith);
}

/// The rows are not along one line.
pub open spec fn spans(h: Turn) -> bool {
    let o = crate::models::motions::origin();
    ||| crate::registration::proper_laws::cross(h.x, h.y) != o
    ||| crate::registration::proper_laws::cross(h.y, h.z) != o
    ||| crate::registration::proper_laws::cross(h.z, h.x) != o
}

/// The stretches are sorted, and the map is the product of the factors with
/// the stretches between them.
pub open spec fn is_decomposition(h: Turn, u: Turn, s: Shift, v: Turn) -> bool {
    &&& s.x >= s.y >= s.z
    &&& s.z >= 0 as real
    &&& h == crate::models::motions::turns(crate::models::motions::turns(u, diagonal(s)), v)
}

/// Where the rows are not along one line, two stretches are positive.
pub proof fn lemma_two_stretches(h: Turn, u: Turn, s: Shift, v: Turn)
    requires
        is_decomposition(h, u, s, v),
        spans(h),
    ensures
        s.x > 0 as real,
        s.y > 0 as real,
{
    if s.y == 0 as real {
        lemma_one_line(u, s, v);
    }
}

} // verus!
