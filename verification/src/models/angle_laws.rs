//! How far, about what and in which direction the rotations turn in exact arithmetic.
use vstd::prelude::*;

use crate::models::motions::{Shift, Turn};
use crate::rotation::{AngleOps, TurnSteps};

verus! {

/// The turn by its columns: where it takes the first, the second and the third axis.
pub open spec fn takes_axes(t: Turn, x: Shift, y: Shift, z: Shift) -> bool {
    &&& t.x == (Shift { x: x.x, y: y.x, z: z.x })
    &&& t.y == (Shift { x: x.y, y: y.y, z: z.y })
    &&& t.z == (Shift { x: x.z, y: y.z, z: z.z })
}

pub open spec fn point(x: real, y: real, z: real) -> Shift {
    Shift { x, y, z }
}

/// In exact arithmetic the matrix of an angle about an axis of the coordinate system
/// leaves that axis and turns the next one towards the one after it by the angle:
/// y towards z about x, z towards x about y, and x towards y about z. An angle in
/// degrees is first multiplied by the radians in a degree. There is a matrix
/// exactly where the axis is one of the three, in either case.
pub proof fn law_angles_turn_about_axes<T: Copy, O: AngleOps<T>>(
    ops: &O,
    axis: char,
    angle: T,
    degrees: Option<T>,
    zero: T,
    one: T,
    r: Option<[[T; 3]; 3]>,
    value: spec_fn(T) -> real,
) -> (turn: (T, T, T))
    requires
        crate::scalar::is_exact(ops, value),
        value(zero) == 0 as real,
        value(one) == 1 as real,
        call_ensures(
            crate::rotation::euler_to_rotmat::<T, O>,
            (axis, angle, degrees, zero, one, ops),
            r,
        ),
    ensures
        degrees is None ==> turn.0 == angle,
        degrees is Some ==> value(turn.0) == value(angle) * value(degrees->0),
        call_ensures(O::cosine, (ops, turn.0), turn.1),
        call_ensures(O::sine, (ops, turn.0), turn.2),
        r is Some <==> axis == 'x' || axis == 'X' || axis == 'y' || axis == 'Y' || axis == 'z'
            || axis == 'Z',
        ({
            let m = crate::models::turn_laws::turn_of(value, crate::rotation::rows3(r->0));
            let (c, s, o, e) = (value(turn.1), value(turn.2), 0 as real, 1 as real);
            &&& axis == 'x' || axis == 'X' ==> takes_axes(
                m,
                point(e, o, o),
                point(o, c, s),
                point(o, -s, c),
            )
            &&& axis == 'y' || axis == 'Y' ==> takes_axes(
                m,
                point(c, o, -s),
                point(o, e, o),
                point(s, o, c),
            )
            &&& axis == 'z' || axis == 'Z' ==> takes_axes(
                m,
                point(c, s, o),
                point(-s, c, o),
                point(o, o, e),
            )
        }),
{
    let radians = match degrees {
        None => angle,
        Some(d) => choose|radians: T| #[trigger]
            crate::scalar::product_of(ops, angle, d, radians) && crate::rotation::is_euler(
                ops,
                axis,
                radians,
                zero,
                one,
                r,
            ),
    };
    assert(crate::rotation::is_euler(ops, axis, radians, zero, one, r));
    let (c, s, n) = choose|c: T, s: T, n: T|
        {
            &&& #[trigger] call_ensures(O::cosine, (ops, radians), c)
            &&& #[trigger] call_ensures(O::sine, (ops, radians), s)
            &&& #[trigger] crate::scalar::negative_of(ops, s, n)
            &&& match (r, crate::rotation::euler_entries(axis, c, s, n, zero, one)) {
                (Some(m), Some(rows)) => crate::rotation::rows3(m) =~~= rows,
                (None, None) => true,
                _ => false,
            }
        };
    if let Some(m) = r {
        assert(crate::rotation::rows3(m) == crate::rotation::euler_entries(
            axis,
            c,
            s,
            n,
            zero,
            one,
        )->0);
    }
    (radians, c, s)
}

/// In exact arithmetic the matrix of a rotation vector leaves the vector, and turns what
/// is at right angles to it about it, by the right hand, by an angle of its length.
/// Without a length it leaves everything.
pub proof fn law_rotation_vectors_turn<T: Copy, O: AngleOps<T>>(
    ops: &O,
    v: [T; 3],
    zero: T,
    one: T,
    m: [[T; 3]; 3],
    u: Shift,
    value: spec_fn(T) -> real,
) -> (turn: (T, T, T))
    requires
        crate::scalar::is_exact(ops, value),
        crate::models::turn_laws::turns_exactly(ops, value),
        value(zero) == 0 as real,
        value(one) == 1 as real,
        call_ensures(
            crate::rotation::rotvec_to_rotmat::<T, O>,
            (&v, zero, one, ops),
            m,
        ),
    ensures
        crate::scalar::length_of(ops, v, turn.0),
        call_ensures(O::cosine, (ops, turn.0), turn.1),
        call_ensures(O::sine, (ops, turn.0), turn.2),
        ({
            let t = crate::models::turn_laws::turn_of(value, crate::rotation::rows3(m));
            let w = crate::models::motions::row_seen(value, v@);
            let (l, c, s) = (value(turn.0), value(turn.1), value(turn.2));
            &&& crate::models::motions::applied(t, w) == w
            &&& l == 0 as real ==> t == crate::models::motions::straight()
            &&& crate::models::motions::dot(w, u) == 0 as real ==> crate::models::turn_laws::scaled(
                l,
                crate::models::motions::applied(t, u),
            ) == crate::models::motions::plus(
                crate::models::turn_laws::scaled(l * c, u),
                crate::models::turn_laws::scaled(s, crate::models::turn_laws::crossed(w, u)),
            )
        }),
{
    let rows = crate::rotation::rows3(m);
    let steps = choose|s: TurnSteps<T>| #[trigger]
        crate::rotation::are_turn_steps(ops, v, zero, one, s, rows);
    let (k, cosine, sine) = (steps.axis, steps.cosine, steps.sine);
    let (c, s, l) = (value(cosine), value(sine), value(steps.angle));
    let t = crate::models::turn_laws::turn_of(value, rows);
    let w = crate::models::motions::row_seen(value, v@);
    let n = crate::models::motions::row_seen(value, k@);
    if l != 0 as real {
        crate::models::turn_laws::lemma_unit(ops, v, steps.angle, steps.divisor, k@, value);
        crate::models::turn_laws::lemma_turn_seen(ops, k@, cosine, sine, zero, one, rows, value);
        crate::models::turn_laws::lemma_rodrigues_keeps_axis(c, s, n, l);
        if crate::models::motions::dot(w, u) == 0 as real {
            crate::models::turn_laws::lemma_scaled_dot(l, n, u);
            let d = crate::models::motions::dot(n, u);
            assert(d == 0 as real) by (nonlinear_arith)
                requires
                    l * d == 0 as real,
                    l != 0 as real,
            ;
            crate::models::turn_laws::lemma_rodrigues_applied(c, s, n, u);
            let a = crate::models::turn_laws::crossed(n, u);
            lemma_stretched(l, c, s, u.x, a.x);
            lemma_stretched(l, c, s, u.y, a.y);
            lemma_stretched(l, c, s, u.z, a.z);
            lemma_crossed(l, n.y, u.z, n.z, u.y);
            lemma_crossed(l, n.z, u.x, n.x, u.z);
            lemma_crossed(l, n.x, u.y, n.y, u.x);
        }
    } else {
        assert(l * l == 0 as real) by (nonlinear_arith)
            requires
                l == 0 as real,
        ;
        assert(s == 0 as real) by (nonlinear_arith)
            requires
                c == 1 as real,
                c * c + s * s == 1 as real,
        ;
        assert forall|i: int, j: int| 0 <= i < 3 && 0 <= j < 3 implies value(#[trigger] rows[i][j])
            == if i == j {
            1 as real
        } else {
            0 as real
        } by {
            crate::rotation_laws::law_no_turn(ops, k@, cosine, sine, zero, one, rows, value, i, j);
        }
        let e = crate::models::motions::straight();
        assert(value(rows[0][0]) == e.x.x && value(rows[0][1]) == e.x.y && value(rows[0][2])
            == e.x.z);
        assert(value(rows[1][0]) == e.y.x && value(rows[1][1]) == e.y.y && value(rows[1][2])
            == e.y.z);
        assert(value(rows[2][0]) == e.z.x && value(rows[2][1]) == e.z.y && value(rows[2][2])
            == e.z.z);
        assert(t == e);
        crate::models::motions::lemma_dot_units(w);
        crate::models::axis_laws::lemma_no_length(w);
        let d = crate::models::turn_laws::crossed(w, u);
        let a = crate::models::motions::applied(t, u);
        lemma_still(l, c, s, u.x, u.y, u.z, d.x, d.y, d.z);
        lemma_still(l, c, s, a.x, a.y, a.z, d.x, d.y, d.z);
    }
    (steps.angle, cosine, sine)
}

proof fn lemma_stretched(l: real, c: real, s: real, u: real, a: real)
    ensures
        l * (c * u + s * a) == (l * c) * u + s * (l * a),
{
    assert(l * (c * u + s * a) == (l * c) * u + s * (l * a)) by (nonlinear_arith);
}

proof fn lemma_crossed(l: real, a: real, b: real, c: real, d: real)
    ensures
        l * (a * b - c * d) == (l * a) * b - (l * c) * d,
{
    assert(l * (a * b - c * d) == (l * a) * b - (l * c) * d) by (nonlinear_arith);
}

proof fn lemma_still(
    l: real,
    c: real,
    s: real,
    x: real,
    y: real,
    z: real,
    p: real,
    q: real,
    r: real,
)
    requires
        l == 0 as real,
        s == 0 as real,
    ensures
        l * x == 0 as real && l * y == 0 as real && l * z == 0 as real,
        (l * c) * x == 0 as real && (l * c) * y == 0 as real && (l * c) * z == 0 as real,
        s * p == 0 as real && s * q == 0 as real && s * r == 0 as real,
{
    assert(l * x == 0 as real && l * y == 0 as real && l * z == 0 as real) by (nonlinear_arith)
        requires
            l == 0 as real,
    ;
    let d = l * c;
    assert(d == 0 as real) by (nonlinear_arith)
        requires
            l == 0 as real,
            d == l * c,
    ;
    assert(d * x == 0 as real && d * y == 0 as real && d * z == 0 as real) by (nonlinear_arith)
        requires
            d == 0 as real,
    ;
    assert(s * p == 0 as real && s * q == 0 as real && s * r == 0 as real) by (nonlinear_arith)
        requires
            s == 0 as real,
    ;
}

} // verus!
