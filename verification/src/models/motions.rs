//! Rigid motions over the reals, and what homogeneous matrices come to in exact
//! arithmetic.
use vstd::prelude::*;

use crate::kinematics::FkOutput;
use crate::models::matrices::{Matrices, NoFailure};
use crate::models::pose::{PoseParameterization, PoseState};
use crate::models::pose_laws::{Reading, RigidArithmetic};
use crate::scalar::Arithmetic;

verus! {

/// A vector.
pub struct Shift {
    pub x: real,
    pub y: real,
    pub z: real,
}

/// A linear map, by its rows.
pub struct Turn {
    pub x: Shift,
    pub y: Shift,
    pub z: Shift,
}

/// A linear map followed by a translation.
pub struct Motion {
    pub turn: Turn,
    pub shift: Shift,
}

pub open spec fn dot(a: Shift, b: Shift) -> real {
    a.x * b.x + a.y * b.y + a.z * b.z
}

pub open spec fn plus(a: Shift, b: Shift) -> Shift {
    Shift { x: a.x + b.x, y: a.y + b.y, z: a.z + b.z }
}

pub open spec fn minus(a: Shift) -> Shift {
    Shift { x: -a.x, y: -a.y, z: -a.z }
}

pub open spec fn origin() -> Shift {
    Shift { x: 0 as real, y: 0 as real, z: 0 as real }
}

pub open spec fn straight() -> Turn {
    Turn {
        x: Shift { x: 1 as real, y: 0 as real, z: 0 as real },
        y: Shift { x: 0 as real, y: 1 as real, z: 0 as real },
        z: Shift { x: 0 as real, y: 0 as real, z: 1 as real },
    }
}

pub open spec fn transposed(a: Turn) -> Turn {
    Turn {
        x: Shift { x: a.x.x, y: a.y.x, z: a.z.x },
        y: Shift { x: a.x.y, y: a.y.y, z: a.z.y },
        z: Shift { x: a.x.z, y: a.y.z, z: a.z.z },
    }
}

/// The linear map applied to a vector.
pub open spec fn applied(a: Turn, v: Shift) -> Shift {
    Shift { x: dot(a.x, v), y: dot(a.y, v), z: dot(a.z, v) }
}

pub open spec fn row_times(a: Shift, b: Turn) -> Shift {
    let c = transposed(b);
    Shift { x: dot(a, c.x), y: dot(a, c.y), z: dot(a, c.z) }
}

pub open spec fn turns(a: Turn, b: Turn) -> Turn {
    Turn { x: row_times(a.x, b), y: row_times(a.y, b), z: row_times(a.z, b) }
}

pub open spec fn composed(a: Motion, b: Motion) -> Motion {
    Motion { turn: turns(a.turn, b.turn), shift: plus(applied(a.turn, b.shift), a.shift) }
}

pub open spec fn undone(a: Motion) -> Motion {
    let back = transposed(a.turn);
    Motion { turn: back, shift: minus(applied(back, a.shift)) }
}

/// The rows and the columns have length 1 and stand at right angles.
pub open spec fn is_orthogonal(a: Turn) -> bool {
    &&& turns(a, transposed(a)) == straight()
    &&& turns(transposed(a), a) == straight()
}

/// Rigid motions as an arithmetic of transforms.
pub open spec fn motions() -> RigidArithmetic<Motion> {
    RigidArithmetic {
        mul: |a: Motion, b: Motion| composed(a, b),
        inv: |a: Motion| undone(a),
        rot: |a: Motion| Motion { turn: a.turn, shift: origin() },
        world: |a: Motion, b: Motion|
            Motion { turn: turns(a.turn, transposed(b.turn)), shift: a.shift },
        e: Motion { turn: straight(), shift: origin() },
        rigid: |a: Motion| is_orthogonal(a.turn),
    }
}

pub proof fn lemma_dot_three(a: Shift, b: Turn, c: Shift)
    ensures
        dot(row_times(a, b), c) == dot(a, applied(b, c)),
{
    lemma_dot_scalars(
        a.x,
        a.y,
        a.z,
        b.x.x,
        b.x.y,
        b.x.z,
        b.y.x,
        b.y.y,
        b.y.z,
        b.z.x,
        b.z.y,
        b.z.z,
        c.x,
        c.y,
        c.z,
    );
}

proof fn lemma_spread(a: real, b: real, c: real, x: real, y: real, z: real, k: real)
    ensures
        (a * x + b * y + c * z) * k == a * (x * k) + b * (y * k) + c * (z * k),
{
    let p = a * x;
    let q = b * y;
    let r = c * z;
    assert((p + q + r) * k == p * k + q * k + r * k) by (nonlinear_arith);
    assert(p * k == a * (x * k)) by (nonlinear_arith)
        requires
            p == a * x,
    ;
    assert(q * k == b * (y * k)) by (nonlinear_arith)
        requires
            q == b * y,
    ;
    assert(r * k == c * (z * k)) by (nonlinear_arith)
        requires
            r == c * z,
    ;
}

proof fn lemma_gather(a: real, x: real, y: real, z: real)
    ensures
        a * (x + y + z) == a * x + a * y + a * z,
{
    assert(a * (x + y + z) == a * x + a * y + a * z) by (nonlinear_arith);
}

proof fn lemma_dot_scalars(
    a: real,
    b: real,
    c: real,
    xx: real,
    xy: real,
    xz: real,
    yx: real,
    yy: real,
    yz: real,
    zx: real,
    zy: real,
    zz: real,
    u: real,
    v: real,
    w: real,
)
    ensures
        (a * xx + b * yx + c * zx) * u + (a * xy + b * yy + c * zy) * v + (a * xz + b * yz + c
            * zz) * w == a * (xx * u + xy * v + xz * w) + b * (yx * u + yy * v + yz * w) + c * (zx
            * u + zy * v + zz * w),
{
    lemma_spread(a, b, c, xx, yx, zx, u);
    lemma_spread(a, b, c, xy, yy, zy, v);
    lemma_spread(a, b, c, xz, yz, zz, w);
    lemma_gather(a, xx * u, xy * v, xz * w);
    lemma_gather(b, yx * u, yy * v, yz * w);
    lemma_gather(c, zx * u, zy * v, zz * w);
}

pub proof fn lemma_turns_associate(a: Turn, b: Turn, c: Turn)
    ensures
        turns(turns(a, b), c) == turns(a, turns(b, c)),
{
    let d = transposed(c);
    lemma_dot_three(a.x, b, d.x);
    lemma_dot_three(a.x, b, d.y);
    lemma_dot_three(a.x, b, d.z);
    lemma_dot_three(a.y, b, d.x);
    lemma_dot_three(a.y, b, d.y);
    lemma_dot_three(a.y, b, d.z);
    lemma_dot_three(a.z, b, d.x);
    lemma_dot_three(a.z, b, d.y);
    lemma_dot_three(a.z, b, d.z);
    let bc = transposed(turns(b, c));
    assert(bc.x == applied(b, d.x));
    assert(bc.y == applied(b, d.y));
    assert(bc.z == applied(b, d.z));
}

pub proof fn lemma_applied_twice(a: Turn, b: Turn, v: Shift)
    ensures
        applied(turns(a, b), v) == applied(a, applied(b, v)),
{
    lemma_dot_three(a.x, b, v);
    lemma_dot_three(a.y, b, v);
    lemma_dot_three(a.z, b, v);
}

pub proof fn lemma_dot_plus(a: Shift, u: Shift, v: Shift)
    ensures
        dot(a, plus(u, v)) == dot(a, u) + dot(a, v),
{
    let (p, q, r) = (a.x, a.y, a.z);
    let (x, y, z) = (u.x, u.y, u.z);
    let (s, t, w) = (v.x, v.y, v.z);
    assert(p * (x + s) == p * x + p * s) by (nonlinear_arith);
    assert(q * (y + t) == q * y + q * t) by (nonlinear_arith);
    assert(r * (z + w) == r * z + r * w) by (nonlinear_arith);
}

pub proof fn lemma_dot_minus(a: Shift, u: Shift)
    ensures
        dot(a, minus(u)) == -dot(a, u),
{
    let (p, q, r) = (a.x, a.y, a.z);
    let (x, y, z) = (u.x, u.y, u.z);
    assert(p * -x == -(p * x)) by (nonlinear_arith);
    assert(q * -y == -(q * y)) by (nonlinear_arith);
    assert(r * -z == -(r * z)) by (nonlinear_arith);
}

pub proof fn lemma_dot_units(a: Shift)
    ensures
        dot(a, straight().x) == a.x,
        dot(a, straight().y) == a.y,
        dot(a, straight().z) == a.z,
        dot(straight().x, a) == a.x,
        dot(straight().y, a) == a.y,
        dot(straight().z, a) == a.z,
        dot(a, origin()) == 0 as real,
{
    let (p, q, r) = (a.x, a.y, a.z);
    let o = 0 as real;
    let e = 1 as real;
    assert(p * o == o && q * o == o && r * o == o && p * e == p && q * e == q && r * e == r)
        by (nonlinear_arith)
        requires
            o == 0 as real,
            e == 1 as real,
    ;
    assert(o * p == o && o * q == o && o * r == o && e * p == p && e * q == q && e * r == r)
        by (nonlinear_arith)
        requires
            o == 0 as real,
            e == 1 as real,
    ;
}

/// The identity is neutral.
pub proof fn lemma_straight(a: Turn)
    ensures
        turns(a, straight()) == a,
        turns(straight(), a) == a,
{
    lemma_dot_units(a.x);
    lemma_dot_units(a.y);
    lemma_dot_units(a.z);
    let c = transposed(a);
    lemma_dot_units(c.x);
    lemma_dot_units(c.y);
    lemma_dot_units(c.z);
    assert(transposed(straight()) == straight());
}

proof fn lemma_straight_applied(v: Shift)
    ensures
        applied(straight(), v) == v,
{
    lemma_dot_units(v);
}

proof fn lemma_composed_associates(a: Motion, b: Motion, c: Motion)
    ensures
        composed(composed(a, b), c) == composed(a, composed(b, c)),
{
    lemma_turns_associate(a.turn, b.turn, c.turn);
    lemma_applied_twice(a.turn, b.turn, c.shift);
    let u = applied(b.turn, c.shift);
    lemma_dot_plus(a.turn.x, u, b.shift);
    lemma_dot_plus(a.turn.y, u, b.shift);
    lemma_dot_plus(a.turn.z, u, b.shift);
}

proof fn lemma_undone(a: Motion)
    requires
        is_orthogonal(a.turn),
    ensures
        composed(a, undone(a)) == motions().e,
        composed(undone(a), a) == motions().e,
{
    let back = transposed(a.turn);
    let t = a.shift;
    let u = applied(back, t);
    lemma_dot_minus(a.turn.x, u);
    lemma_dot_minus(a.turn.y, u);
    lemma_dot_minus(a.turn.z, u);
    lemma_applied_twice(a.turn, back, t);
    lemma_straight_applied(t);
    assert(transposed(back) == a.turn);
}

proof fn lemma_world_root(a: Motion, b: Motion)
    requires
        is_orthogonal(b.turn),
    ensures
        composed((motions().world)(a, b), (motions().rot)(b)) == a,
{
    let back = transposed(b.turn);
    lemma_turns_associate(a.turn, back, b.turn);
    lemma_straight(a.turn);
    let w = turns(a.turn, back);
    lemma_dot_units(w.x);
    lemma_dot_units(w.y);
    lemma_dot_units(w.z);
}

/// Rigid motions form an exact arithmetic.
pub proof fn law_motions_exact()
    ensures
        crate::models::pose_laws::is_exact(motions()),
{
    reveal(crate::models::pose_laws::is_exact);
    let g = motions();
    assert forall|a: Motion, b: Motion, c: Motion| #[trigger]
        crate::models::pose_laws::times(g, crate::models::pose_laws::times(g, a, b), c)
            == crate::models::pose_laws::times(
        g,
        a,
        crate::models::pose_laws::times(g, b, c),
    ) by {
        lemma_composed_associates(a, b, c);
    }
    assert forall|a: Motion| #[trigger] crate::models::pose_laws::times(g, a, g.e) == a by {
        lemma_straight(a.turn);
        lemma_dot_units(a.turn.x);
        lemma_dot_units(a.turn.y);
        lemma_dot_units(a.turn.z);
    }
    assert forall|a: Motion| #[trigger] crate::models::pose_laws::times(g, g.e, a) == a by {
        lemma_straight(a.turn);
        lemma_straight_applied(a.shift);
    }
    assert forall|a: Motion| (g.rigid)(a) implies crate::models::pose_laws::times(
        g,
        a,
        #[trigger] crate::models::pose_laws::inverse(g, a),
    ) == g.e by {
        lemma_undone(a);
    }
    assert forall|a: Motion| (g.rigid)(a) implies crate::models::pose_laws::times(
        g,
        #[trigger] crate::models::pose_laws::inverse(g, a),
        a,
    ) == g.e by {
        lemma_undone(a);
    }
    assert forall|a: Motion, b: Motion| (g.rigid)(b) implies crate::models::pose_laws::times(
        g,
        #[trigger] (g.world)(a, b),
        (g.rot)(b),
    ) == a by {
        lemma_world_root(a, b);
    }
    lemma_straight(straight());
    assert(transposed(straight()) == straight());
}

pub proof fn lemma_transposed_product(a: Turn, b: Turn)
    ensures
        transposed(turns(a, b)) == turns(transposed(b), transposed(a)),
{
    let c = transposed(b);
    lemma_dot_swapped(a.x, c.x);
    lemma_dot_swapped(a.x, c.y);
    lemma_dot_swapped(a.x, c.z);
    lemma_dot_swapped(a.y, c.x);
    lemma_dot_swapped(a.y, c.y);
    lemma_dot_swapped(a.y, c.z);
    lemma_dot_swapped(a.z, c.x);
    lemma_dot_swapped(a.z, c.y);
    lemma_dot_swapped(a.z, c.z);
    assert(transposed(transposed(a)) == a);
}

pub proof fn lemma_dot_swapped(a: Shift, b: Shift)
    ensures
        dot(a, b) == dot(b, a),
{
    let (p, q, r) = (a.x, a.y, a.z);
    let (x, y, z) = (b.x, b.y, b.z);
    assert(p * x == x * p) by (nonlinear_arith);
    assert(q * y == y * q) by (nonlinear_arith);
    assert(r * z == z * r) by (nonlinear_arith);
}

/// The product of orthogonal maps is orthogonal.
pub proof fn lemma_product_orthogonal(a: Turn, b: Turn)
    requires
        is_orthogonal(a),
        is_orthogonal(b),
    ensures
        is_orthogonal(turns(a, b)),
{
    let (p, q) = (transposed(a), transposed(b));
    lemma_transposed_product(a, b);
    // a b q p
    lemma_turns_associate(a, b, turns(q, p));
    lemma_turns_associate(b, q, p);
    lemma_straight(p);
    // q p a b
    lemma_turns_associate(q, p, turns(a, b));
    lemma_turns_associate(p, a, b);
    lemma_straight(b);
}

proof fn lemma_transposed_orthogonal(a: Turn)
    requires
        is_orthogonal(a),
    ensures
        is_orthogonal(transposed(a)),
{
    assert(transposed(transposed(a)) == a);
}

/// The first three entries of a row.
pub open spec fn row_seen<T>(value: spec_fn(T) -> real, row: Seq<T>) -> Shift {
    Shift { x: value(row[0]), y: value(row[1]), z: value(row[2]) }
}

/// The motion that a homogeneous matrix stands for.
pub open spec fn motion_of<T>(value: spec_fn(T) -> real, m: Seq<Seq<T>>) -> Motion {
    Motion {
        turn: Turn {
            x: row_seen(value, m[0]),
            y: row_seen(value, m[1]),
            z: row_seen(value, m[2]),
        },
        shift: Shift { x: value(m[0][3]), y: value(m[1][3]), z: value(m[2][3]) },
    }
}

/// The matrix stands for a rigid motion.
pub open spec fn is_rigid<T>(value: spec_fn(T) -> real, m: Seq<Seq<T>>) -> bool {
    &&& value(m[3][0]) == 0 as real
    &&& value(m[3][1]) == 0 as real
    &&& value(m[3][2]) == 0 as real
    &&& value(m[3][3]) == 1 as real
    &&& is_orthogonal(motion_of(value, m).turn)
}

/// Homogeneous matrices, read as motions.
pub open spec fn reading<T>(value: spec_fn(T) -> real) -> Reading<[[T; 4]; 4], Motion> {
    Reading {
        seen: |m: [[T; 4]; 4]| motion_of(value, crate::rotation::rows4(m)),
        sound: |m: [[T; 4]; 4]| is_rigid(value, crate::rotation::rows4(m)),
    }
}

proof fn lemma_four(a: real, b: real, c: real, d: real, z: real, e: real)
    requires
        z == 0 as real,
        e == 1 as real,
    ensures
        z * a + z * b + z * c + e * d == d,
        a * z + b * z + c * z + d * e == d,
{
    assert(z * a == z && z * b == z && z * c == z && e * d == d) by (nonlinear_arith)
        requires
            z == 0 as real,
            e == 1 as real,
    ;
    assert(a * z == z && b * z == z && c * z == z && d * e == d) by (nonlinear_arith)
        requires
            z == 0 as real,
            e == 1 as real,
    ;
}

proof fn lemma_product_seen<T: Copy, O: Arithmetic<T>>(
    ops: &O,
    zero: T,
    a: Seq<Seq<T>>,
    b: Seq<Seq<T>>,
    r: Seq<Seq<T>>,
    value: spec_fn(T) -> real,
)
    requires
        crate::scalar::is_exact(ops, value),
        value(zero) == 0 as real,
        is_rigid(value, a),
        is_rigid(value, b),
        crate::models::matrices::is_matrix_product(ops, zero, a, b, r),
    ensures
        is_rigid(value, r),
        motion_of(value, r) == composed(motion_of(value, a), motion_of(value, b)),
{
    assert forall|i: int, j: int| 0 <= i < 4 && 0 <= j < 4 implies value(#[trigger] r[i][j])
        == crate::rotation_laws::composed(value, a, b, i, j) by {
        crate::models::rest_laws::law_exact_matrix_product(ops, zero, a, b, r, value, i, j);
    }
    assert forall|i: int, j: int| 0 <= i < 3 && 0 <= j < 3 implies value(#[trigger] r[i][j])
        == value(a[i][0]) * value(b[0][j]) + value(a[i][1]) * value(b[1][j]) + value(a[i][2])
        * value(b[2][j]) by {
        let z = value(b[3][j]);
        let w = value(a[i][3]);
        assert(z == 0 as real);
        assert(w * z == 0 as real) by (nonlinear_arith)
            requires
                z == 0 as real,
        ;
    }
    assert forall|i: int| 0 <= i < 3 implies value(#[trigger] r[i][3]) == value(a[i][0]) * value(
        b[0][3],
    ) + value(a[i][1]) * value(b[1][3]) + value(a[i][2]) * value(b[2][3]) + value(a[i][3]) by {
        let e = value(b[3][3]);
        let w = value(a[i][3]);
        assert(e == 1 as real);
        assert(w * e == w) by (nonlinear_arith)
            requires
                e == 1 as real,
        ;
    }
    assert forall|j: int| 0 <= j < 4 implies value(#[trigger] r[3][j]) == value(b[3][j]) by {
        lemma_four(
            value(b[0][j]),
            value(b[1][j]),
            value(b[2][j]),
            value(b[3][j]),
            value(a[3][0]),
            value(a[3][3]),
        );
    }
    let (p, q) = (motion_of(value, a), motion_of(value, b));
    let m = motion_of(value, r);
    assert(m.turn == turns(p.turn, q.turn)) by {
        assert(value(r[0][0]) == m.turn.x.x && value(r[0][1]) == m.turn.x.y);
        assert(value(r[0][2]) == m.turn.x.z && value(r[1][0]) == m.turn.y.x);
        assert(value(r[1][1]) == m.turn.y.y && value(r[1][2]) == m.turn.y.z);
        assert(value(r[2][0]) == m.turn.z.x && value(r[2][1]) == m.turn.z.y);
        assert(value(r[2][2]) == m.turn.z.z);
    }
    assert(m.shift == plus(applied(p.turn, q.shift), p.shift)) by {
        assert(value(r[0][3]) == m.shift.x);
        assert(value(r[1][3]) == m.shift.y);
        assert(value(r[2][3]) == m.shift.z);
    }
    assert(value(r[3][0]) == 0 as real && value(r[3][1]) == 0 as real);
    assert(value(r[3][2]) == 0 as real && value(r[3][3]) == 1 as real);
    lemma_product_orthogonal(p.turn, q.turn);
}

proof fn lemma_inverse_seen<T: Copy, O: Arithmetic<T>>(
    ops: &O,
    zero: T,
    one: T,
    a: Seq<Seq<T>>,
    r: Seq<Seq<T>>,
    value: spec_fn(T) -> real,
)
    requires
        crate::scalar::is_exact(ops, value),
        value(zero) == 0 as real,
        value(one) == 1 as real,
        a.len() == 4,
        a[0].len() == 4,
        a[1].len() == 4,
        a[2].len() == 4,
        is_rigid(value, a),
        crate::rotation::is_rigid_inverse(ops, a, zero, one, r),
    ensures
        is_rigid(value, r),
        motion_of(value, r) == undone(motion_of(value, a)),
{
    let linear = crate::rotation::linear_part(a);
    let t = crate::rotation::translation_part(a);
    let u = crate::rotation::translation_part(r);
    let back = crate::rotation::transposed(linear);
    assert(r == crate::rotation::homogeneous(back, u, zero, one));
    assert(r[0] == back[0].push(u[0]) && r[1] == back[1].push(u[1]) && r[2] == back[2].push(u[2]));
    assert(linear[0][0] == a[0][0] && linear[0][1] == a[0][1] && linear[0][2] == a[0][2]);
    assert(linear[1][0] == a[1][0] && linear[1][1] == a[1][1] && linear[1][2] == a[1][2]);
    assert(linear[2][0] == a[2][0] && linear[2][1] == a[2][1] && linear[2][2] == a[2][2]);
    crate::rotation_laws::lemma_inverse_coordinate(ops, linear, t, 0, u[0], value);
    crate::rotation_laws::lemma_inverse_coordinate(ops, linear, t, 1, u[1], value);
    crate::rotation_laws::lemma_inverse_coordinate(ops, linear, t, 2, u[2], value);
    lemma_transposed_orthogonal(motion_of(value, a).turn);
}

proof fn lemma_world_seen<T: Copy, O: Arithmetic<T>>(
    ops: &O,
    zero: T,
    one: T,
    a: Seq<Seq<T>>,
    b: Seq<Seq<T>>,
    r: Seq<Seq<T>>,
    value: spec_fn(T) -> real,
)
    requires
        crate::scalar::is_exact(ops, value),
        value(zero) == 0 as real,
        value(one) == 1 as real,
        a.len() == 4,
        a[0].len() == 4,
        a[1].len() == 4,
        a[2].len() == 4,
        b.len() == 4,
        b[0].len() == 4,
        b[1].len() == 4,
        b[2].len() == 4,
        r.len() == 4,
        r[0].len() == 4,
        r[1].len() == 4,
        r[2].len() == 4,
        is_rigid(value, a),
        is_rigid(value, b),
        crate::models::matrices::is_world_root(ops, zero, one, a, b, r),
    ensures
        is_rigid(value, r),
        motion_of(value, r) == (motions().world)(motion_of(value, a), motion_of(value, b)),
{
    let p = crate::rotation::linear_part(a);
    let q = crate::rotation::linear_part(b);
    let t = crate::rotation::translation_part(a);
    let packed = crate::rotation::homogeneous(crate::rotation::linear_part(r), t, zero, one);
    assert(r == packed);
    assert(r[3] == seq![zero, zero, zero, one]);
    assert(r[0][3] == t[0] && r[1][3] == t[1] && r[2][3] == t[2]) by {
        assert(packed[0][3] == t[0] && packed[1][3] == t[1] && packed[2][3] == t[2]);
    }
    assert forall|i: int, j: int| 0 <= i < 3 && 0 <= j < 3 implies value(#[trigger] r[i][j])
        == value(a[i][0]) * value(b[j][0]) + value(a[i][1]) * value(b[j][1]) + value(a[i][2])
        * value(b[j][2]) by {
        let terms = crate::rotation::inner_terms(p[i], q[j]);
        crate::rotation_laws::law_exact_signed_sum(ops, terms, r[i][j], value);
        crate::rotation_laws::lemma_three_terms(value, terms);
        assert(p[i] =~= a[i].take(3));
        assert(q[j] =~= b[j].take(3));
    }
    let (m, n) = (motion_of(value, a), motion_of(value, b));
    let w = motion_of(value, r);
    assert(transposed(transposed(n.turn)) == n.turn);
    assert(w.turn == turns(m.turn, transposed(n.turn))) by {
        assert(value(r[0][0]) == w.turn.x.x && value(r[0][1]) == w.turn.x.y);
        assert(value(r[0][2]) == w.turn.x.z && value(r[1][0]) == w.turn.y.x);
        assert(value(r[1][1]) == w.turn.y.y && value(r[1][2]) == w.turn.y.z);
        assert(value(r[2][0]) == w.turn.z.x && value(r[2][1]) == w.turn.z.y);
        assert(value(r[2][2]) == w.turn.z.z);
    }
    lemma_transposed_orthogonal(n.turn);
    lemma_product_orthogonal(m.turn, transposed(n.turn));
}

/// In exact arithmetic the operations on homogeneous matrices are those on
/// motions.
pub proof fn law_matrices_compute_motions<T: Copy, O: Arithmetic<T>>(
    ops: &O,
    zero: T,
    one: T,
    value: spec_fn(T) -> real,
)
    requires
        crate::scalar::is_exact(ops, value),
        value(zero) == 0 as real,
        value(one) == 1 as real,
    ensures
        crate::models::pose_laws::computes::<[[T; 4]; 4], Motion, NoFailure, Matrices<T, O>>(
            &(Matrices { ops, zero, one }),
            motions(),
            reading(value),
        ),
{
    let matrices = Matrices { ops, zero, one };
    let g = motions();
    let v = reading(value);
    assert forall|a: [[T; 4]; 4], b: [[T; 4]; 4], r: [[T; 4]; 4]| #[trigger]
        crate::kinematics::product::<[[T; 4]; 4], NoFailure, Matrices<T, O>>(&matrices, a, b, r)
            && crate::models::pose_laws::sound(v, a) && crate::models::pose_laws::sound(
            v,
            b,
        ) implies crate::models::pose_laws::sound(v, r) && crate::models::pose_laws::seen(v, r)
        == crate::models::pose_laws::times(
        g,
        crate::models::pose_laws::seen(v, a),
        crate::models::pose_laws::seen(v, b),
    ) by {
        lemma_product_seen(
            ops,
            zero,
            crate::rotation::rows4(a),
            crate::rotation::rows4(b),
            crate::rotation::rows4(r),
            value,
        );
    }
    assert forall|a: [[T; 4]; 4], r: [[T; 4]; 4]| #[trigger]
        crate::kinematics::inverse_of::<[[T; 4]; 4], NoFailure, Matrices<T, O>>(&matrices, a, r)
            && crate::models::pose_laws::sound(v, a) implies crate::models::pose_laws::sound(v, r)
        && crate::models::pose_laws::seen(v, r) == crate::models::pose_laws::inverse(
        g,
        crate::models::pose_laws::seen(v, a),
    ) by {
        lemma_inverse_seen(
            ops,
            zero,
            one,
            crate::rotation::rows4(a),
            crate::rotation::rows4(r),
            value,
        );
    }
    assert forall|a: [[T; 4]; 4], r: [[T; 4]; 4]| #[trigger]
        crate::models::pose::rotation_of::<[[T; 4]; 4], NoFailure, Matrices<T, O>>(
            &matrices,
            a,
            r,
        ) && crate::models::pose_laws::sound(v, a) implies crate::models::pose_laws::sound(v, r)
        && crate::models::pose_laws::seen(v, r) == (g.rot)(
        crate::models::pose_laws::seen(v, a),
    ) by {
        let m = crate::rotation::rows4(a);
        let n = crate::rotation::rows4(r);
        let p = crate::rotation::linear_part(m);
        let only = crate::models::matrices::turned_only(m, zero, one);
        assert(n == only);
        assert(only[0] == p[0].push(zero) && only[1] == p[1].push(zero) && only[2] == p[2].push(
            zero,
        ));
        assert(only[3] == seq![zero, zero, zero, one]);
        assert(p[0] =~= m[0].take(3) && p[1] =~= m[1].take(3) && p[2] =~= m[2].take(3));
    }
    assert forall|a: [[T; 4]; 4], b: [[T; 4]; 4], r: [[T; 4]; 4]| #[trigger]
        crate::models::pose::world_root_of::<[[T; 4]; 4], NoFailure, Matrices<T, O>>(
            &matrices,
            a,
            b,
            r,
        ) && crate::models::pose_laws::sound(v, a) && crate::models::pose_laws::sound(
            v,
            b,
        ) implies crate::models::pose_laws::sound(v, r) && crate::models::pose_laws::seen(v, r) == (
    g.world)(crate::models::pose_laws::seen(v, a), crate::models::pose_laws::seen(v, b)) by {
        lemma_world_seen(
            ops,
            zero,
            one,
            crate::rotation::rows4(a),
            crate::rotation::rows4(b),
            crate::rotation::rows4(r),
            value,
        );
    }
}

/// In exact arithmetic, parameters taken from a posed skeleton of rigid
/// transforms under any parameterization pose it the same way again: every
/// bone has the same pose and the same transform. With several roots this holds
/// where both parameterizations treat the first root apart, or neither does, and
/// of absolute poses.
pub proof fn law_skeletons_round_trip<T: Copy, O: Arithmetic<T>>(
    ops: &O,
    zero: T,
    one: T,
    parents: Seq<i64>,
    rest: Seq<[[T; 4]; 4]>,
    mode: PoseParameterization,
    params: Seq<[[T; 4]; 4]>,
    identity: [[T; 4]; 4],
    s: PoseState<[[T; 4]; 4]>,
    target: PoseParameterization,
    converted: Seq<[[T; 4]; 4]>,
    again: PoseState<[[T; 4]; 4]>,
    value: spec_fn(T) -> real,
    b: int,
)
    requires
        crate::scalar::is_exact(ops, value),
        value(zero) == 0 as real,
        value(one) == 1 as real,
        crate::models::pose_laws::rooted(parents),
        crate::models::pose_laws::roots_agree(parents, mode, target),
        rest.len() == parents.len(),
        params.len() == rest.len(),
        forall|i: int|
            0 <= i < rest.len() ==> is_rigid(value, crate::rotation::rows4(#[trigger] rest[i])),
        forall|i: int|
            0 <= i < params.len() ==> is_rigid(
                value,
                crate::rotation::rows4(#[trigger] params[i]),
            ),
        crate::rotation::rows4(identity) =~~= crate::rotation::identity_rows(zero, one),
        crate::models::pose::is_posed(
            &(Matrices { ops, zero, one }),
            mode,
            parents,
            rest,
            params,
            identity,
            s,
        ),
        crate::models::pose::are_parameters(&(Matrices { ops, zero, one }), s, target, converted),
        crate::models::pose::is_posed(
            &(Matrices { ops, zero, one }),
            target,
            parents,
            rest,
            converted,
            identity,
            again,
        ),
        0 <= b < rest.len(),
    ensures
        motion_of(value, crate::rotation::rows4(again.poses@[b])) == motion_of(
            value,
            crate::rotation::rows4(s.poses@[b]),
        ),
        motion_of(value, crate::rotation::rows4(again.transforms@[b])) == motion_of(
            value,
            crate::rotation::rows4(s.transforms@[b]),
        ),
{
    let g = motions();
    let v = reading(value);
    law_motions_exact();
    law_matrices_compute_motions(ops, zero, one, value);
    let e = crate::rotation::rows4(identity);
    assert(e == crate::rotation::identity_rows(zero, one));
    assert(motion_of(value, e) == g.e);
    assert(is_rigid(value, e)) by {
        lemma_straight(straight());
        assert(transposed(straight()) == straight());
    }
    assert(crate::models::pose_laws::all_sound(v, rest));
    assert(crate::models::pose_laws::all_sound(v, params));
    crate::models::pose_laws::law_parameterizations_round_trip(
        &(Matrices { ops, zero, one }),
        g,
        v,
        parents,
        rest,
        mode,
        params,
        identity,
        s,
        target,
        converted,
        again,
        b,
    );
}

/// In exact arithmetic, forward kinematics on rigid transforms has one outcome:
/// whether the bones are walked one after the other or front by front, each gets the
/// same pose and the same transform.
pub proof fn law_skeletons_pose_alike<T: Copy, O: Arithmetic<T>>(
    ops: &O,
    zero: T,
    one: T,
    parents: Seq<i64>,
    rest: Seq<[[T; 4]; 4]>,
    delta: Seq<[[T; 4]; 4]>,
    a: FkOutput<[[T; 4]; 4]>,
    b: FkOutput<[[T; 4]; 4]>,
    value: spec_fn(T) -> real,
    i: int,
)
    requires
        crate::scalar::is_exact(ops, value),
        value(zero) == 0 as real,
        value(one) == 1 as real,
        crate::models::pose_laws::rooted(parents),
        rest.len() == parents.len(),
        delta.len() == rest.len(),
        forall|i: int|
            0 <= i < rest.len() ==> is_rigid(value, crate::rotation::rows4(#[trigger] rest[i])),
        forall|i: int|
            0 <= i < delta.len() ==> is_rigid(value, crate::rotation::rows4(#[trigger] delta[i])),
        crate::kinematics::all_posed(
            &(Matrices { ops, zero, one }),
            parents,
            rest,
            delta,
            None,
            a.poses@,
            a.transforms@,
        ),
        crate::kinematics::all_posed(
            &(Matrices { ops, zero, one }),
            parents,
            rest,
            delta,
            None,
            b.poses@,
            b.transforms@,
        ),
        0 <= i < rest.len(),
    ensures
        motion_of(value, crate::rotation::rows4(a.poses@[i])) == motion_of(
            value,
            crate::rotation::rows4(b.poses@[i]),
        ),
        motion_of(value, crate::rotation::rows4(a.transforms@[i])) == motion_of(
            value,
            crate::rotation::rows4(b.transforms@[i]),
        ),
{
    let v = reading(value);
    law_matrices_compute_motions(ops, zero, one, value);
    assert(crate::models::pose_laws::all_sound(v, rest));
    assert(crate::models::pose_laws::all_sound(v, delta));
    crate::models::pose_laws::law_kinematics_exact(
        &(Matrices { ops, zero, one }),
        motions(),
        v,
        parents,
        rest,
        delta,
        None,
        a.poses@,
        a.transforms@,
        b.poses@,
        b.transforms@,
        i,
    );
}

} // verus!
