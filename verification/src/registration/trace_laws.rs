//! The trace of a rotation, and the rotation that a decomposition makes largest.
use vstd::prelude::*;

use crate::models::motions::{Shift, Turn};

verus! {

/// The sum of the entries on the diagonal.
pub open spec fn trace(t: Turn) -> real {
    t.x.x + t.y.y + t.z.z
}

proof fn lemma_commutes(a: real, b: real)
    ensures
        a * b == b * a,
{
    assert(a * b == b * a) by (nonlinear_arith);
}

/// Two maps have one trace in either order.
proof fn lemma_trace_cycles(a: Turn, b: Turn)
    ensures
        trace(crate::models::motions::turns(a, b)) == trace(crate::models::motions::turns(b, a)),
{
    lemma_commutes(a.x.x, b.x.x);
    lemma_commutes(a.x.y, b.y.x);
    lemma_commutes(a.x.z, b.z.x);
    lemma_commutes(a.y.x, b.x.y);
    lemma_commutes(a.y.y, b.y.y);
    lemma_commutes(a.y.z, b.z.y);
    lemma_commutes(a.z.x, b.x.z);
    lemma_commutes(a.z.y, b.y.z);
    lemma_commutes(a.z.z, b.z.z);
}

proof fn lemma_square_positive(x: real)
    ensures
        x * x >= 0 as real,
{
    assert(x * x >= 0 as real) by (nonlinear_arith);
}

/// A number whose square is at most 1 is at most 1.
proof fn lemma_at_most_one(x: real)
    requires
        x * x <= 1 as real,
    ensures
        x <= 1 as real,
{
    if x > 1 as real {
        assert(x * x > 1 as real) by (nonlinear_arith)
            requires
                x > 1 as real,
        ;
    }
}

/// The rows of an orthogonal map have length 1 and stand at right angles.
proof fn lemma_rows(z: Turn)
    requires
        crate::models::motions::is_orthogonal(z),
    ensures
        crate::models::motions::dot(z.x, z.x) == 1 as real,
        crate::models::motions::dot(z.y, z.y) == 1 as real,
        crate::models::motions::dot(z.z, z.z) == 1 as real,
        crate::models::motions::dot(z.x, z.y) == 0 as real,
        crate::models::motions::dot(z.y, z.z) == 0 as real,
        crate::models::motions::dot(z.z, z.x) == 0 as real,
{
    let t = crate::models::motions::transposed(z);
    let p = crate::models::motions::turns(z, t);
    let e = crate::models::motions::straight();
    assert(crate::models::motions::transposed(t) == z);
    assert(p == e);
    assert(p.x.x == crate::models::motions::dot(z.x, z.x));
    assert(p.y.y == crate::models::motions::dot(z.y, z.y));
    assert(p.z.z == crate::models::motions::dot(z.z, z.z));
    assert(p.x.y == crate::models::motions::dot(z.x, z.y));
    assert(p.y.z == crate::models::motions::dot(z.y, z.z));
    assert(p.z.x == crate::models::motions::dot(z.z, z.x));
}

/// No entry on the diagonal of an orthogonal map is more than 1.
proof fn lemma_diagonal_entries(z: Turn)
    requires
        crate::models::motions::is_orthogonal(z),
    ensures
        z.x.x <= 1 as real,
        z.y.y <= 1 as real,
        z.z.z <= 1 as real,
{
    lemma_rows(z);
    lemma_square_positive(z.x.y);
    lemma_square_positive(z.x.z);
    lemma_square_positive(z.y.x);
    lemma_square_positive(z.y.z);
    lemma_square_positive(z.z.x);
    lemma_square_positive(z.z.y);
    lemma_at_most_one(z.x.x);
    lemma_at_most_one(z.y.y);
    lemma_at_most_one(z.z.z);
}

/// A row of an orthogonal map that turns over is opposite to the product across of
/// the other two.
proof fn lemma_opposite_row(a: Shift, b: Shift, c: Shift)
    requires
        crate::models::motions::dot(a, a) == 1 as real,
        crate::models::motions::dot(b, b) == 1 as real,
        crate::models::motions::dot(c, c) == 1 as real,
        crate::models::motions::dot(b, c) == 0 as real,
        crate::models::motions::dot(a, crate::registration::proper_laws::cross(b, c))
            == -(1 as real),
    ensures
        a == crate::models::motions::minus(crate::registration::proper_laws::cross(b, c)),
{
    let x = crate::registration::proper_laws::cross(b, c);
    let n = crate::models::motions::minus(x);
    assert(x == crate::models::turn_laws::crossed(b, c));
    crate::models::axis_laws::lemma_sine_square(b, c);
    let o = 0 as real;
    assert(o * o == o) by (nonlinear_arith)
        requires
            o == 0 as real,
    ;
    assert(crate::models::motions::dot(x, x) == 1 as real);
    crate::models::motions::lemma_dot_minus(a, x);
    crate::models::motions::lemma_dot_minus(n, x);
    crate::models::motions::lemma_dot_swapped(n, x);
    crate::models::motions::lemma_dot_minus(x, x);
    crate::models::axis_laws::lemma_same_direction(a, n);
}

proof fn lemma_difference_square(a: real, b: real)
    ensures
        (a - b) * (a - b) == a * a - (a * b + a * b) + b * b,
        (a - b) * (a - b) >= 0 as real,
{
    assert((a - b) * (a - b) == a * a - (a * b + a * b) + b * b) by (nonlinear_arith);
    lemma_square_positive(a - b);
}

proof fn lemma_bounded_by_product(t: real)
    requires
        3 as real - (t + t) - t * t >= 0 as real,
    ensures
        t <= 1 as real,
{
    if t > 1 as real {
        assert(t * t > 1 as real) by (nonlinear_arith)
            requires
                t > 1 as real,
        ;
    }
}

/// The trace of an orthogonal map that turns over is at most 1.
proof fn lemma_turned_over_trace(z: Turn)
    requires
        crate::models::motions::is_orthogonal(z),
        crate::registration::proper_laws::determinant(z) == -(1 as real),
    ensures
        trace(z) <= 1 as real,
{
    lemma_rows(z);
    crate::registration::proper_laws::lemma_triple(z.x, z.y, z.z);
    crate::models::motions::lemma_dot_swapped(z.x, z.y);
    lemma_opposite_row(z.x, z.y, z.z);
    lemma_opposite_row(z.y, z.z, z.x);
    lemma_opposite_row(z.z, z.x, z.y);
    let (a, b, c) = (z.x.x, z.y.y, z.z.z);
    let t = a + b + c;
    lemma_difference_square(z.y.z, z.z.y);
    lemma_difference_square(z.z.x, z.x.z);
    lemma_difference_square(z.x.y, z.y.x);
    assert(a == -(b * c - z.y.z * z.z.y));
    assert(b == -(c * a - z.z.x * z.x.z));
    assert(c == -(a * b - z.x.y * z.y.x));
    crate::models::turn_laws::lemma_six(a, b, c, a, b, c);
    lemma_commutes(a, b);
    lemma_commutes(b, c);
    lemma_commutes(c, a);
    lemma_bounded_by_product(t);
}

/// The trace of a map after a stretch along the axes.
proof fn lemma_stretched_trace(z: Turn, s: Shift)
    ensures
        trace(crate::models::motions::turns(z, crate::registration::polar_laws::diagonal(s)))
            == z.x.x * s.x + z.y.y * s.y + z.z.z * s.z,
{
    let o = 0 as real;
    let (a, b, c, d, e, f) = (z.x.y, z.x.z, z.y.x, z.y.z, z.z.x, z.z.y);
    assert(a * o == o && b * o == o && c * o == o && d * o == o && e * o == o && f * o == o)
        by (nonlinear_arith)
        requires
            o == 0 as real,
    ;
}

proof fn lemma_times_at_most(z: real, s: real, m: real)
    requires
        s >= 0 as real,
        z <= m,
    ensures
        z * s <= m * s,
{
    assert(z * s <= m * s) by (nonlinear_arith)
        requires
            s >= 0 as real,
            z <= m,
    ;
}

proof fn lemma_one_times(s: real)
    ensures
        1 as real * s == s,
        2 as real * s == s + s,
{
    let (e, f) = (1 as real, 2 as real);
    assert(e * s == s && f * s == s + s) by (nonlinear_arith)
        requires
            e == 1 as real,
            f == 2 as real,
    ;
}

/// Sorted stretches, weighed by entries of at most 1 with a sum of at most 1.
proof fn lemma_weighed(x: real, y: real, z: real, s: Shift)
    requires
        s.x >= s.y >= s.z,
        s.z >= 0 as real,
        x <= 1 as real,
        y <= 1 as real,
        x + y + z <= 1 as real,
    ensures
        x * s.x + y * s.y + z * s.z <= s.x + s.y - s.z,
{
    let (a, b, c) = (s.x - s.y, s.y - s.z, s.z);
    let p = x + y;
    let q = x + y + z;
    assert(x * (a + b + c) == x * a + x * b + x * c) by (nonlinear_arith);
    assert(y * (b + c) == y * b + y * c) by (nonlinear_arith);
    assert(p * b == x * b + y * b) by (nonlinear_arith)
        requires
            p == x + y,
    ;
    assert(q * c == x * c + y * c + z * c) by (nonlinear_arith)
        requires
            q == x + y + z,
    ;
    assert(s.x == a + b + c && s.y == b + c);
    lemma_times_at_most(x, a, 1 as real);
    lemma_times_at_most(p, b, 2 as real);
    lemma_times_at_most(q, c, 1 as real);
    lemma_one_times(a);
    lemma_one_times(b);
    lemma_one_times(c);
}

/// The trace of a decomposed map after another one.
proof fn lemma_decomposed_trace(q: Turn, u: Turn, s: Shift, v: Turn)
    ensures
        ({
            let d = crate::registration::polar_laws::diagonal(s);
            let h = crate::models::motions::turns(crate::models::motions::turns(u, d), v);
            let z = crate::models::motions::turns(crate::models::motions::turns(v, q), u);
            trace(crate::models::motions::turns(q, h)) == trace(crate::models::motions::turns(z, d))
        }),
{
    let d = crate::registration::polar_laws::diagonal(s);
    let ud = crate::models::motions::turns(u, d);
    crate::models::motions::lemma_turns_associate(q, ud, v);
    let left = crate::models::motions::turns(q, ud);
    lemma_trace_cycles(left, v);
    crate::models::motions::lemma_turns_associate(v, q, ud);
    let vq = crate::models::motions::turns(v, q);
    crate::models::motions::lemma_turns_associate(vq, u, d);
}

/// Of all rotations, the one that the factors of a decomposition make, with the sign
/// between them put right, has the largest trace before the decomposed map.
pub proof fn law_largest_trace(h: Turn, u: Turn, s: Shift, v: Turn, q: Turn)
    requires
        crate::registration::polar_laws::is_decomposition(h, u, s, v),
        crate::models::motions::is_orthogonal(u),
        crate::models::motions::is_orthogonal(v),
        crate::registration::proper_laws::is_proper_turn(q),
    ensures
        ({
            let r = crate::registration::proper_laws::signed_product(
                crate::models::motions::transposed(v),
                crate::models::motions::transposed(u),
            );
            trace(crate::models::motions::turns(q, h)) <= trace(crate::models::motions::turns(r, h))
        }),
{
    let vt = crate::models::motions::transposed(v);
    let ut = crate::models::motions::transposed(u);
    let joined = crate::models::motions::turns(vt, ut);
    let sign = if crate::registration::proper_laws::determinant(joined) < 0 as real {
        -(1 as real)
    } else {
        1 as real
    };
    let m = crate::registration::proper_laws::signed_straight(sign);
    let r = crate::registration::proper_laws::signed_product(vt, ut);
    lemma_decomposed_trace(q, u, s, v);
    lemma_decomposed_trace(r, u, s, v);
    // What is left of the factors around the rotation that they make.
    let vm = crate::models::motions::turns(vt, m);
    crate::models::motions::lemma_turns_associate(v, vm, ut);
    crate::models::motions::lemma_turns_associate(v, vt, m);
    crate::models::motions::lemma_straight(m);
    crate::models::motions::lemma_turns_associate(m, ut, u);
    assert(crate::models::motions::turns(crate::models::motions::turns(v, r), u) == m);
    lemma_stretched_trace(m, s);
    lemma_one_times(s.x);
    lemma_one_times(s.y);
    lemma_one_times(s.z);
    // The other rotation.
    let vq = crate::models::motions::turns(v, q);
    let z = crate::models::motions::turns(vq, u);
    crate::models::motions::lemma_product_orthogonal(v, q);
    crate::models::motions::lemma_product_orthogonal(vq, u);
    lemma_stretched_trace(z, s);
    lemma_diagonal_entries(z);
    if sign < 0 as real {
        lemma_same_sign(v, q, u);
        crate::registration::proper_laws::law_orthogonal_determinant(z);
        lemma_turned_over_trace(z);
        lemma_weighed(z.x.x, z.y.y, z.z.z, s);
        let k = s.z;
        let n = -(1 as real);
        assert(n * k == -k) by (nonlinear_arith)
            requires
                n == -(1 as real),
        ;
    } else {
        lemma_times_at_most(z.x.x, s.x, 1 as real);
        lemma_times_at_most(z.y.y, s.y, 1 as real);
        lemma_times_at_most(z.z.z, s.z, 1 as real);
    }
}

/// The determinant around a rotation is that of the factors.
proof fn lemma_same_sign(v: Turn, q: Turn, u: Turn)
    requires
        crate::registration::proper_laws::determinant(q) == 1 as real,
    ensures
        crate::registration::proper_laws::determinant(
            crate::models::motions::turns(crate::models::motions::turns(v, q), u),
        ) == crate::registration::proper_laws::determinant(
            crate::models::motions::turns(
                crate::models::motions::transposed(v),
                crate::models::motions::transposed(u),
            ),
        ),
{
    let vq = crate::models::motions::turns(v, q);
    crate::registration::proper_laws::law_determinant_product(v, q);
    crate::registration::proper_laws::law_determinant_product(vq, u);
    crate::registration::proper_laws::law_determinant_product(
        crate::models::motions::transposed(v),
        crate::models::motions::transposed(u),
    );
    crate::registration::proper_laws::lemma_transposed_determinant(v);
    crate::registration::proper_laws::lemma_transposed_determinant(u);
    let d = crate::registration::proper_laws::determinant(v);
    lemma_commutes(d, 1 as real);
    lemma_one_times(d);
}

} // verus!
