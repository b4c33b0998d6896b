//! What the quaternion of a rotation matrix comes to in exact arithmetic: it
//! has length one, and turns vectors as the matrix does.
use vstd::prelude::*;

use crate::rotation::{Pivot, RotationOps};
use crate::rotation_laws::Quaternion;

verus! {

/// A matrix of real numbers, by the axes of its rows and columns.
pub struct Matrix {
    pub xx: real,
    pub xy: real,
    pub xz: real,
    pub yx: real,
    pub yy: real,
    pub yz: real,
    pub zx: real,
    pub zy: real,
    pub zz: real,
}

pub open spec fn matrix<T>(value: spec_fn(T) -> real, m: Seq<Seq<T>>) -> Matrix {
    Matrix {
        xx: value(m[0][0]),
        xy: value(m[0][1]),
        xz: value(m[0][2]),
        yx: value(m[1][0]),
        yy: value(m[1][1]),
        yz: value(m[1][2]),
        zx: value(m[2][0]),
        zy: value(m[2][1]),
        zz: value(m[2][2]),
    }
}

/// The rows have length one and stand at right angles.
pub open spec fn has_unit_rows(m: Matrix) -> bool {
    &&& m.xx * m.xx + m.xy * m.xy + m.xz * m.xz == 1 as real
    &&& m.yx * m.yx + m.yy * m.yy + m.yz * m.yz == 1 as real
    &&& m.zx * m.zx + m.zy * m.zy + m.zz * m.zz == 1 as real
    &&& m.xx * m.yx + m.xy * m.yy + m.xz * m.yz == 0 as real
    &&& m.yx * m.zx + m.yy * m.zy + m.yz * m.zz == 0 as real
    &&& m.zx * m.xx + m.zy * m.xy + m.zz * m.xz == 0 as real
}

/// The columns have length one and stand at right angles.
pub open spec fn has_unit_columns(m: Matrix) -> bool {
    &&& m.xx * m.xx + m.yx * m.yx + m.zx * m.zx == 1 as real
    &&& m.xy * m.xy + m.yy * m.yy + m.zy * m.zy == 1 as real
    &&& m.xz * m.xz + m.yz * m.yz + m.zz * m.zz == 1 as real
    &&& m.xx * m.xy + m.yx * m.yy + m.zx * m.zy == 0 as real
    &&& m.xy * m.xz + m.yy * m.yz + m.zy * m.zz == 0 as real
    &&& m.xz * m.xx + m.yz * m.yx + m.zz * m.zx == 0 as real
}

/// Each row is the cross product of the two others.
pub open spec fn is_right_handed(m: Matrix) -> bool {
    &&& m.xx == m.yy * m.zz - m.yz * m.zy
    &&& m.xy == m.yz * m.zx - m.yx * m.zz
    &&& m.xz == m.yx * m.zy - m.yy * m.zx
    &&& m.yy == m.zz * m.xx - m.zx * m.xz
    &&& m.yz == m.zx * m.xy - m.zy * m.xx
    &&& m.yx == m.zy * m.xz - m.zz * m.xy
    &&& m.zz == m.xx * m.yy - m.xy * m.yx
    &&& m.zx == m.xy * m.yz - m.xz * m.yy
    &&& m.zy == m.xz * m.yx - m.xx * m.yz
}

/// The matrix turns and does nothing else.
pub open spec fn is_turn(m: Matrix) -> bool {
    has_unit_rows(m) && has_unit_columns(m) && is_right_handed(m)
}

/// The matrix with the axes renamed in turn.
pub open spec fn renamed(m: Matrix) -> Matrix {
    Matrix {
        xx: m.yy,
        xy: m.yz,
        xz: m.yx,
        yx: m.zy,
        yy: m.zz,
        yz: m.zx,
        zx: m.xy,
        zy: m.xz,
        zz: m.xx,
    }
}

proof fn lemma_renamed(m: Matrix)
    requires
        is_turn(m),
    ensures
        is_turn(renamed(m)),
{
}

proof fn lemma_swap(a: real, b: real)
    ensures
        a * b == b * a,
{
    assert(a * b == b * a) by (nonlinear_arith);
}

proof fn lemma_spread(a: real, b: real, c: real)
    ensures
        (a + b) * c == a * c + b * c,
        (a - b) * c == a * c - b * c,
        c * (a + b) == c * a + c * b,
        c * (a - b) == c * a - c * b,
{
    assert((a + b) * c == a * c + b * c) by (nonlinear_arith);
    assert((a - b) * c == a * c - b * c) by (nonlinear_arith);
    assert(c * (a + b) == c * a + c * b) by (nonlinear_arith);
    assert(c * (a - b) == c * a - c * b) by (nonlinear_arith);
}

proof fn lemma_one(a: real)
    ensures
        (1 as real) * a == a,
{
    assert((1 as real) * a == a) by (nonlinear_arith);
}

/// `(1 + a - b - c) * d`, term by term.
proof fn lemma_balance(a: real, b: real, c: real, d: real)
    ensures
        (1 as real + a - b - c) * d == d + a * d - b * d - c * d,
{
    lemma_spread(1 as real + a - b, c, d);
    lemma_spread(1 as real + a, b, d);
    lemma_spread(1 as real, a, d);
    lemma_one(d);
}

/// `(1 + a + b + c) * d`, term by term.
proof fn lemma_trace(a: real, b: real, c: real, d: real)
    ensures
        (1 as real + a + b + c) * d == d + a * d + b * d + c * d,
{
    lemma_spread(1 as real + a + b, c, d);
    lemma_spread(1 as real + a, b, d);
    lemma_spread(1 as real, a, d);
    lemma_one(d);
}

/// Every way to multiply three numbers.
proof fn lemma_three(a: real, b: real, c: real)
    ensures
        (a * b) * c == a * (b * c),
        (a * b) * c == a * (c * b),
        (a * b) * c == b * (a * c),
        (a * b) * c == b * (c * a),
        (a * b) * c == c * (a * b),
        (a * b) * c == c * (b * a),
        (a * b) * c == (b * a) * c,
{
    assert((a * b) * c == a * (b * c)) by (nonlinear_arith);
    lemma_swap(b, c);
    lemma_swap(a, b);
    lemma_swap(a, c);
    assert((b * a) * c == b * (a * c)) by (nonlinear_arith);
    lemma_swap(a * b, c);
}

/// `s * (a + b + c)`, term by term.
proof fn lemma_over_three(s: real, a: real, b: real, c: real)
    ensures
        s * (a + b + c) == s * a + s * b + s * c,
{
    lemma_spread(a + b, c, s);
    lemma_spread(a, b, s);
}

/// The first column of the cross products of the rows, multiplied with a
/// column: the determinant for the first, and nothing for the others.
proof fn lemma_first_column(m: Matrix)
    ensures
        ({
            let x = m.yy * m.zz - m.yz * m.zy;
            let y = m.zy * m.xz - m.zz * m.xy;
            let z = m.xy * m.yz - m.xz * m.yy;
            &&& x * m.xx + y * m.yx + z * m.zx == determinant(m)
            &&& x * m.xy + y * m.yy + z * m.zy == 0 as real
            &&& x * m.xz + y * m.yz + z * m.zz == 0 as real
        }),
{
    lemma_spread(m.yy * m.zz, m.yz * m.zy, m.xx);
    lemma_spread(m.zy * m.xz, m.zz * m.xy, m.yx);
    lemma_spread(m.xy * m.yz, m.xz * m.yy, m.zx);
    lemma_spread(m.yy * m.zz, m.yz * m.zy, m.xy);
    lemma_spread(m.zy * m.xz, m.zz * m.xy, m.yy);
    lemma_spread(m.xy * m.yz, m.xz * m.yy, m.zy);
    lemma_spread(m.yy * m.zz, m.yz * m.zy, m.xz);
    lemma_spread(m.zy * m.xz, m.zz * m.xy, m.yz);
    lemma_spread(m.xy * m.yz, m.xz * m.yy, m.zz);
    lemma_spread(m.yy * m.zz, m.yz * m.zy, m.xx);
    lemma_spread(m.yz * m.zx, m.yx * m.zz, m.xy);
    lemma_spread(m.yx * m.zy, m.yy * m.zx, m.xz);
    lemma_three(m.yy, m.zz, m.xx);
    lemma_three(m.yz, m.zy, m.xx);
    lemma_three(m.zy, m.xz, m.yx);
    lemma_three(m.yx, m.zy, m.xz);
    lemma_three(m.zz, m.xy, m.yx);
    lemma_three(m.yx, m.zz, m.xy);
    lemma_three(m.xy, m.yz, m.zx);
    lemma_three(m.yz, m.zx, m.xy);
    lemma_three(m.xz, m.yy, m.zx);
    lemma_three(m.yy, m.zx, m.xz);
    lemma_three(m.yy, m.zz, m.xy);
    lemma_three(m.zz, m.xy, m.yy);
    lemma_three(m.yz, m.zy, m.xy);
    lemma_three(m.xy, m.yz, m.zy);
    lemma_three(m.zy, m.xz, m.yy);
    lemma_three(m.xz, m.yy, m.zy);
    lemma_three(m.yy, m.zz, m.xz);
    lemma_three(m.xz, m.yy, m.zz);
    lemma_three(m.yz, m.zy, m.xz);
    lemma_three(m.zy, m.xz, m.yz);
    lemma_three(m.zz, m.xy, m.yz);
    lemma_three(m.xy, m.yz, m.zz);
}

/// The determinant.
pub open spec fn determinant(m: Matrix) -> real {
    m.xx * (m.yy * m.zz - m.yz * m.zy) + m.xy * (m.yz * m.zx - m.yx * m.zz) + m.xz * (m.yx * m.zy
        - m.yy * m.zx)
}

/// One entry of a column, from the cross products of the rows: `a`, `b` and
/// `c` is the row of the entry, and the weights are the inner products of the
/// rows with it.
proof fn lemma_entry(
    m: Matrix,
    a: real,
    b: real,
    c: real,
    wx: real,
    wy: real,
    wz: real,
)
    requires
        determinant(m) == 1 as real,
        wx == m.xx * a + m.xy * b + m.xz * c,
        wy == m.yx * a + m.yy * b + m.yz * c,
        wz == m.zx * a + m.zy * b + m.zz * c,
    ensures
        ({
            let x = m.yy * m.zz - m.yz * m.zy;
            let y = m.zy * m.xz - m.zz * m.xy;
            let z = m.xy * m.yz - m.xz * m.yy;
            x * wx + y * wy + z * wz == a
        }),
{
    let x = m.yy * m.zz - m.yz * m.zy;
    let y = m.zy * m.xz - m.zz * m.xy;
    let z = m.xy * m.yz - m.xz * m.yy;
    lemma_first_column(m);
    lemma_over_three(x, m.xx * a, m.xy * b, m.xz * c);
    lemma_over_three(y, m.yx * a, m.yy * b, m.yz * c);
    lemma_over_three(z, m.zx * a, m.zy * b, m.zz * c);
    lemma_over_three(a, x * m.xx, y * m.yx, z * m.zx);
    lemma_over_three(b, x * m.xy, y * m.yy, z * m.zy);
    lemma_over_three(c, x * m.xz, y * m.yz, z * m.zz);
    lemma_three(x, m.xx, a);
    lemma_three(y, m.yx, a);
    lemma_three(z, m.zx, a);
    lemma_three(x, m.xy, b);
    lemma_three(y, m.yy, b);
    lemma_three(z, m.zy, b);
    lemma_three(x, m.xz, c);
    lemma_three(y, m.yz, c);
    lemma_three(z, m.zz, c);
    lemma_one(a);
    lemma_swap(a, 1 as real);
    lemma_none(b);
    lemma_none(c);
}

proof fn lemma_none(a: real)
    ensures
        (0 as real) * a == 0 as real,
        a * (0 as real) == 0 as real,
{
    assert((0 as real) * a == 0 as real) by (nonlinear_arith);
    assert(a * (0 as real) == 0 as real) by (nonlinear_arith);
}

/// The first column holds the cross products of the rows, and it stands at
/// right angles to the others.
proof fn lemma_handed_column(m: Matrix)
    requires
        has_unit_rows(m),
        determinant(m) == 1 as real,
    ensures
        m.xx == m.yy * m.zz - m.yz * m.zy,
        m.yx == m.zy * m.xz - m.zz * m.xy,
        m.zx == m.xy * m.yz - m.xz * m.yy,
        m.xx * m.xx + m.yx * m.yx + m.zx * m.zx == 1 as real,
        m.xx * m.xy + m.yx * m.yy + m.zx * m.zy == 0 as real,
{
    let x = m.yy * m.zz - m.yz * m.zy;
    let y = m.zy * m.xz - m.zz * m.xy;
    let z = m.xy * m.yz - m.xz * m.yy;
    lemma_swap(m.xx, m.yx);
    lemma_swap(m.xy, m.yy);
    lemma_swap(m.xz, m.yz);
    lemma_swap(m.yx, m.zx);
    lemma_swap(m.yy, m.zy);
    lemma_swap(m.yz, m.zz);
    lemma_swap(m.zx, m.xx);
    lemma_swap(m.zy, m.xy);
    lemma_swap(m.zz, m.xz);
    lemma_entry(m, m.xx, m.xy, m.xz, 1 as real, 0 as real, 0 as real);
    lemma_entry(m, m.yx, m.yy, m.yz, 0 as real, 1 as real, 0 as real);
    lemma_entry(m, m.zx, m.zy, m.zz, 0 as real, 0 as real, 1 as real);
    lemma_none(x);
    lemma_none(y);
    lemma_none(z);
    lemma_one(x);
    lemma_one(y);
    lemma_one(z);
    lemma_swap(x, 1 as real);
    lemma_swap(y, 1 as real);
    lemma_swap(z, 1 as real);
    lemma_first_column(m);
}

proof fn lemma_determinant_renamed(m: Matrix)
    ensures
        determinant(renamed(m)) == determinant(m),
{
    let n = renamed(m);
    lemma_first_column(m);
    lemma_spread(m.zz * m.xx, m.zx * m.xz, m.yy);
    lemma_spread(m.zx * m.xy, m.zy * m.xx, m.yz);
    lemma_spread(m.zy * m.xz, m.zz * m.xy, m.yx);
    lemma_spread(m.yy * m.zz, m.yz * m.zy, m.xx);
    lemma_spread(m.xy * m.yz, m.xz * m.yy, m.zx);
    lemma_three(m.zz, m.xx, m.yy);
    lemma_three(m.yy, m.zz, m.xx);
    lemma_three(m.zx, m.xz, m.yy);
    lemma_three(m.xz, m.yy, m.zx);
    lemma_three(m.zx, m.xy, m.yz);
    lemma_three(m.xy, m.yz, m.zx);
    lemma_three(m.zy, m.xx, m.yz);
    lemma_three(m.yz, m.zy, m.xx);
    lemma_three(m.zy, m.xz, m.yx);
    lemma_three(m.zz, m.xy, m.yx);
}

/// Where the rows have length one, stand at right angles and have the
/// determinant one, so do the columns, and each row is the cross product of
/// the two others.
pub proof fn law_turn(m: Matrix)
    requires
        has_unit_rows(m),
        determinant(m) == 1 as real,
    ensures
        is_turn(m),
{
    let n = renamed(m);
    let o = renamed(n);
    lemma_handed_column(m);
    lemma_determinant_renamed(m);
    lemma_handed_column(n);
    lemma_determinant_renamed(n);
    lemma_handed_column(o);
}

/// Four times the products of the components of the quaternion of a turn.
pub open spec fn ww(m: Matrix) -> real {
    1 as real + m.xx + m.yy + m.zz
}

pub open spec fn xx(m: Matrix) -> real {
    1 as real + m.xx - m.yy - m.zz
}

pub open spec fn wx(m: Matrix) -> real {
    m.zy - m.yz
}

pub open spec fn wy(m: Matrix) -> real {
    m.xz - m.zx
}

pub open spec fn wz(m: Matrix) -> real {
    m.yx - m.xy
}

pub open spec fn xy(m: Matrix) -> real {
    m.xy + m.yx
}

pub open spec fn xz(m: Matrix) -> real {
    m.xz + m.zx
}

pub open spec fn yz(m: Matrix) -> real {
    m.yz + m.zy
}

pub open spec fn yy(m: Matrix) -> real {
    1 as real + m.yy - m.xx - m.zz
}

pub open spec fn zz(m: Matrix) -> real {
    1 as real + m.zz - m.xx - m.yy
}

proof fn lemma_wx_wx(m: Matrix)
    requires
        is_turn(m),
    ensures
        wx(m) * wx(m) == ww(m) * xx(m),
{
    let d = wx(m);
    lemma_spread(m.zy, m.yz, d);
    lemma_spread(m.zy, m.yz, m.zy);
    lemma_spread(m.zy, m.yz, m.yz);
    lemma_swap(m.zy, m.yz);
    assert(d * d == m.zy * m.zy + m.yz * m.yz - m.zy * m.yz - m.zy * m.yz);
    let a = xx(m);
    lemma_trace(m.xx, m.yy, m.zz, a);
    lemma_swap(m.xx, a);
    lemma_swap(m.yy, a);
    lemma_swap(m.zz, a);
    lemma_balance(m.xx, m.yy, m.zz, m.xx);
    lemma_balance(m.xx, m.yy, m.zz, m.yy);
    lemma_balance(m.xx, m.yy, m.zz, m.zz);
    lemma_swap(m.xx, m.yy);
    lemma_swap(m.xx, m.zz);
    lemma_swap(m.yy, m.zz);
    lemma_swap(m.yz, m.zy);
}

proof fn lemma_wx_wy(m: Matrix)
    requires
        is_turn(m),
    ensures
        wx(m) * wy(m) == ww(m) * xy(m),
{
    let e = wy(m);
    lemma_spread(m.zy, m.yz, e);
    lemma_spread(m.xz, m.zx, m.zy);
    lemma_spread(m.xz, m.zx, m.yz);
    let s = xy(m);
    lemma_trace(m.xx, m.yy, m.zz, s);
    lemma_spread(m.xy, m.yx, m.xx);
    lemma_spread(m.xy, m.yx, m.yy);
    lemma_spread(m.xy, m.yx, m.zz);
    lemma_swap(m.zy, m.zx);
    lemma_swap(m.yz, m.xz);
    lemma_swap(m.yz, m.zx);
    lemma_swap(m.yx, m.zz);
    lemma_swap(m.yy, m.xy);
    lemma_swap(m.yy, m.yx);
}

proof fn lemma_xy_xy(m: Matrix)
    requires
        is_turn(m),
    ensures
        xy(m) * xy(m) == xx(m) * yy(m),
{
    let d = xy(m);
    lemma_spread(m.xy, m.yx, d);
    lemma_spread(m.xy, m.yx, m.xy);
    lemma_spread(m.xy, m.yx, m.yx);
    lemma_swap(m.xy, m.yx);
    let a = yy(m);
    lemma_balance(m.xx, m.yy, m.zz, a);
    lemma_swap(m.xx, a);
    lemma_swap(m.yy, a);
    lemma_swap(m.zz, a);
    lemma_balance(m.yy, m.xx, m.zz, m.xx);
    lemma_balance(m.yy, m.xx, m.zz, m.yy);
    lemma_balance(m.yy, m.xx, m.zz, m.zz);
    lemma_swap(m.xx, m.yy);
    lemma_swap(m.xx, m.zz);
    lemma_swap(m.yy, m.zz);
}

proof fn lemma_wx_xy(m: Matrix)
    requires
        is_turn(m),
    ensures
        wx(m) * xy(m) == xx(m) * wy(m),
{
    let s = xy(m);
    lemma_spread(m.zy, m.yz, s);
    lemma_spread(m.xy, m.yx, m.zy);
    lemma_spread(m.xy, m.yx, m.yz);
    let e = wy(m);
    lemma_balance(m.xx, m.yy, m.zz, e);
    lemma_spread(m.xz, m.zx, m.xx);
    lemma_spread(m.xz, m.zx, m.yy);
    lemma_spread(m.xz, m.zx, m.zz);
    lemma_swap(m.zy, m.yx);
    lemma_swap(m.yz, m.xy);
    lemma_swap(m.xz, m.yy);
    lemma_swap(m.xz, m.xx);
    lemma_swap(m.zx, m.xx);
}

proof fn lemma_wx_xz(m: Matrix)
    requires
        is_turn(m),
    ensures
        wx(m) * xz(m) == xx(m) * wz(m),
{
    let s = xz(m);
    lemma_spread(m.zy, m.yz, s);
    lemma_spread(m.xz, m.zx, m.zy);
    lemma_spread(m.xz, m.zx, m.yz);
    let e = wz(m);
    lemma_balance(m.xx, m.yy, m.zz, e);
    lemma_spread(m.yx, m.xy, m.xx);
    lemma_spread(m.yx, m.xy, m.yy);
    lemma_spread(m.yx, m.xy, m.zz);
    lemma_swap(m.zy, m.zx);
    lemma_swap(m.yz, m.xz);
    lemma_swap(m.yx, m.zz);
    lemma_swap(m.yx, m.yy);
    lemma_swap(m.xy, m.yy);
}

proof fn lemma_xy_xz(m: Matrix)
    requires
        is_turn(m),
    ensures
        xy(m) * xz(m) == xx(m) * yz(m),
{
    let s = xz(m);
    lemma_spread(m.xy, m.yx, s);
    lemma_spread(m.xz, m.zx, m.xy);
    lemma_spread(m.xz, m.zx, m.yx);
    let e = yz(m);
    lemma_balance(m.xx, m.yy, m.zz, e);
    lemma_spread(m.yz, m.zy, m.xx);
    lemma_spread(m.yz, m.zy, m.yy);
    lemma_spread(m.yz, m.zy, m.zz);
    lemma_swap(m.xy, m.zx);
    lemma_swap(m.yx, m.xz);
    lemma_swap(m.zy, m.xx);
    lemma_swap(m.zy, m.yy);
    lemma_swap(m.zy, m.zz);
    lemma_swap(m.yz, m.zz);
}

/// The products of the components of `q` are those of the turn `m`.
pub open spec fn has_products(m: Matrix, q: Quaternion) -> bool {
    &&& 4 as real * (q.w * q.w) == ww(m)
    &&& 4 as real * (q.x * q.x) == xx(m)
    &&& 4 as real * (q.y * q.y) == yy(m)
    &&& 4 as real * (q.z * q.z) == zz(m)
    &&& 4 as real * (q.w * q.x) == wx(m)
    &&& 4 as real * (q.w * q.y) == wy(m)
    &&& 4 as real * (q.w * q.z) == wz(m)
    &&& 4 as real * (q.x * q.y) == xy(m)
    &&& 4 as real * (q.y * q.z) == yz(m)
    &&& 4 as real * (q.z * q.x) == xz(m)
}

/// Two components that were found by dividing by the same one.
proof fn lemma_found(s: real, u: real, b: real, c: real, ab: real, ac: real, bc: real)
    requires
        u > 0 as real,
        s * s == 4 as real * u,
        b * s == ab,
        c * s == ac,
        ab * ac == u * bc,
    ensures
        4 as real * (b * c) == bc,
{
    let d = b * c;
    let f = s * s;
    assert((b * s) * (c * s) == (b * c) * (s * s)) by {
        lemma_three(b, s, c * s);
        assert(s * (c * s) == c * (s * s)) by {
            lemma_three(s, s, c);
            lemma_swap(s, c);
        }
        lemma_three(b, c, s * s);
    }
    assert(d * f == u * bc);
    assert(d * (4 as real * u) == u * (4 as real * d)) by (nonlinear_arith);
    let e = 4 as real * d;
    assert(e == bc) by (nonlinear_arith)
        requires
            u * e == u * bc,
            u > 0 as real,
    ;
}

/// The component that was found first, and one that was divided by it.
proof fn lemma_pivot(s: real, u: real, a: real, b: real, ab: real)
    requires
        s * s == 4 as real * u,
        4 as real * a == s,
        b * s == ab,
    ensures
        4 as real * (a * a) == u,
        4 as real * (a * b) == ab,
        4 as real * (b * a) == ab,
{
    assert(16 as real * (a * a) == s * s) by (nonlinear_arith)
        requires
            4 as real * a == s,
    ;
    assert(4 as real * (a * b) == b * s) by (nonlinear_arith)
        requires
            4 as real * a == s,
    ;
    lemma_swap(a, b);
}

/// The operations are exact in the numbers that `value` stands for.
pub open spec fn turns_exactly<T, O: RotationOps<T>>(ops: &O, value: spec_fn(T) -> real) -> bool {
    &&& crate::scalar::is_exact(ops, value)
    &&& crate::scalar::divides_exactly(ops, value)
    &&& crate::scalar::tells_signs(ops, value)
    &&& crate::scalar::compares(ops, value)
    &&& forall|u: T, s: T| #[trigger]
        crate::rotation::doubled_root_of(ops, u, s) && value(u) >= 0 as real ==> value(s)
            >= 0 as real && value(s) * value(s) == 4 as real * value(u)
    &&& forall|s: T, r: T| #[trigger]
        crate::rotation::is_quarter(ops, s, r) ==> 4 as real * value(r) == value(s)
}

proof fn lemma_ratio<T, O: RotationOps<T>>(
    ops: &O,
    add: bool,
    a: T,
    b: T,
    s: T,
    r: T,
    value: spec_fn(T) -> real,
)
    requires
        turns_exactly(ops, value),
        value(s) > 0 as real,
        crate::rotation::is_ratio(ops, add, a, b, s, r),
    ensures
        value(r) * value(s) == if add {
            value(a) + value(b)
        } else {
            value(a) - value(b)
        },
{
    let u = choose|u: T|
        (if add {
            crate::scalar::sum_of(ops, a, b, u)
        } else {
            crate::scalar::difference_of(ops, a, b, u)
        }) && #[trigger] crate::scalar::quotient_of(ops, u, s, r);
    let x = value(u);
    let y = value(s);
    assert((x / y) * y == x) by (nonlinear_arith)
        requires
            y > 0 as real,
    ;
}

proof fn lemma_scale(u: real, s: real)
    requires
        u > 0 as real,
        s >= 0 as real,
        s * s == 4 as real * u,
    ensures
        s > 0 as real,
{
    if s == 0 as real {
        lemma_none(s);
    }
}

/// In exact arithmetic the quaternion of a rotation matrix has its products,
/// and the length one.
pub proof fn law_unit_quaternion<T, O: RotationOps<T>>(
    ops: &O,
    m: Seq<Seq<T>>,
    one: T,
    q: Seq<T>,
    value: spec_fn(T) -> real,
)
    requires
        turns_exactly(ops, value),
        value(one) == 1 as real,
        has_unit_rows(matrix(value, m)),
        determinant(matrix(value, m)) == 1 as real,
        crate::rotation::is_unitquat(ops, m, one, q),
    ensures
        has_products(matrix(value, m), crate::rotation_laws::quaternion(value, q)),
        crate::rotation_laws::norm(crate::rotation_laws::quaternion(value, q)) == 1 as real,
{
    let a = matrix(value, m);
    let b = renamed(a);
    let c = renamed(b);
    law_turn(a);
    lemma_renamed(a);
    lemma_renamed(b);
    let p = crate::rotation_laws::quaternion(value, q);
    let (trace, pivot, s) = choose|trace: T, pivot: Pivot, s: T|
        {
            &&& crate::rotation::is_trace(ops, m, trace)
            &&& crate::rotation::is_pivot(ops, m, trace, pivot)
            &&& #[trigger] crate::rotation::is_scale(ops, m, one, trace, pivot, s)
            &&& crate::rotation::are_components(ops, m, pivot, s, q)
        };
    let u = choose|u: T| #[trigger]
        crate::rotation::is_square(ops, m, one, trace, pivot, u)
            && crate::rotation::doubled_root_of(ops, u, s);
    assert(value(trace) == a.xx + a.yy + a.zz);
    let k = value(u);
    let d = value(s);
    match pivot {
        Pivot::W => {
            assert(k == ww(a));
            lemma_scale(k, d);
            lemma_ratio(ops, false, m[2][1], m[1][2], s, q[0], value);
            lemma_ratio(ops, false, m[0][2], m[2][0], s, q[1], value);
            lemma_ratio(ops, false, m[1][0], m[0][1], s, q[2], value);
            lemma_wx_wx(a);
            lemma_wx_wx(b);
            lemma_wx_wx(c);
            lemma_wx_wy(a);
            lemma_wx_wy(b);
            lemma_wx_wy(c);
            lemma_pivot(d, k, p.w, p.x, wx(a));
            lemma_pivot(d, k, p.w, p.y, wy(a));
            lemma_pivot(d, k, p.w, p.z, wz(a));
            lemma_found(d, k, p.x, p.x, wx(a), wx(a), xx(a));
            lemma_found(d, k, p.y, p.y, wy(a), wy(a), yy(a));
            lemma_found(d, k, p.z, p.z, wz(a), wz(a), zz(a));
            lemma_found(d, k, p.x, p.y, wx(a), wy(a), xy(a));
            lemma_found(d, k, p.y, p.z, wy(a), wz(a), yz(a));
            lemma_found(d, k, p.z, p.x, wz(a), wx(a), xz(a));
        },
        Pivot::X => {
            lemma_ratios_x(ops, m, one, s, u, q, value);
            lemma_from_x(a, p, d);
        },
        Pivot::Y => {
            lemma_ratios_y(ops, m, one, s, u, q, value);
            let r = Quaternion { x: p.y, y: p.z, z: p.x, w: p.w };
            lemma_from_x(b, r, d);
        },
        Pivot::Z => {
            lemma_ratios_z(ops, m, one, s, u, q, value);
            let r = Quaternion { x: p.z, y: p.x, z: p.y, w: p.w };
            lemma_from_x(c, r, d);
        },
    }
}

/// The products, where the first component was found first.
proof fn lemma_from_x(a: Matrix, p: Quaternion, d: real)
    requires
        is_turn(a),
        xx(a) > 0 as real,
        d * d == 4 as real * xx(a),
        4 as real * p.x == d,
        p.y * d == xy(a),
        p.z * d == xz(a),
        p.w * d == wx(a),
    ensures
        has_products(a, p),
{
    let k = xx(a);
    let c = renamed(renamed(a));
    lemma_renamed(a);
    lemma_renamed(renamed(a));
    lemma_wx_wx(a);
    lemma_xy_xy(a);
    lemma_xy_xy(c);
    lemma_wx_xy(a);
    lemma_wx_xz(a);
    lemma_xy_xz(a);
    lemma_pivot(d, k, p.x, p.y, xy(a));
    lemma_pivot(d, k, p.x, p.z, xz(a));
    lemma_pivot(d, k, p.x, p.w, wx(a));
    lemma_swap(ww(a), xx(a));
    lemma_swap(zz(a), xx(a));
    lemma_found(d, k, p.w, p.w, wx(a), wx(a), ww(a));
    lemma_found(d, k, p.y, p.y, xy(a), xy(a), yy(a));
    lemma_found(d, k, p.z, p.z, xz(a), xz(a), zz(a));
    lemma_found(d, k, p.w, p.y, wx(a), xy(a), wy(a));
    lemma_found(d, k, p.w, p.z, wx(a), xz(a), wz(a));
    lemma_found(d, k, p.y, p.z, xy(a), xz(a), yz(a));
}

/// What was found where the first component came first.
proof fn lemma_ratios_x<T, O: RotationOps<T>>(
    ops: &O,
    m: Seq<Seq<T>>,
    one: T,
    s: T,
    u: T,
    q: Seq<T>,
    value: spec_fn(T) -> real,
)
    requires
        turns_exactly(ops, value),
        value(one) == 1 as real,
        crate::rotation::is_balance(ops, one, m[0][0], m[1][1], m[2][2], u),
        crate::rotation::doubled_root_of(ops, u, s),
        crate::rotation::are_components(ops, m, Pivot::X, s, q),
        xx(matrix(value, m)) > 0 as real,
    ensures
        ({
            let a = matrix(value, m);
            let p = crate::rotation_laws::quaternion(value, q);
            let d = value(s);
            &&& d * d == 4 as real * xx(a)
            &&& 4 as real * p.x == d
            &&& p.y * d == xy(a)
            &&& p.z * d == xz(a)
            &&& p.w * d == wx(a)
        }),
{
    assert(value(u) == xx(matrix(value, m)));
    lemma_scale(value(u), value(s));
    lemma_ratio(ops, true, m[0][1], m[1][0], s, q[1], value);
    lemma_ratio(ops, true, m[0][2], m[2][0], s, q[2], value);
    lemma_ratio(ops, false, m[2][1], m[1][2], s, q[3], value);
}

/// What was found where the second component came first.
proof fn lemma_ratios_y<T, O: RotationOps<T>>(
    ops: &O,
    m: Seq<Seq<T>>,
    one: T,
    s: T,
    u: T,
    q: Seq<T>,
    value: spec_fn(T) -> real,
)
    requires
        turns_exactly(ops, value),
        value(one) == 1 as real,
        crate::rotation::is_balance(ops, one, m[1][1], m[0][0], m[2][2], u),
        crate::rotation::doubled_root_of(ops, u, s),
        crate::rotation::are_components(ops, m, Pivot::Y, s, q),
        yy(matrix(value, m)) > 0 as real,
    ensures
        ({
            let a = matrix(value, m);
            let p = crate::rotation_laws::quaternion(value, q);
            let d = value(s);
            &&& d * d == 4 as real * yy(a)
            &&& 4 as real * p.y == d
            &&& p.z * d == yz(a)
            &&& p.x * d == xy(a)
            &&& p.w * d == wy(a)
        }),
{
    assert(value(u) == yy(matrix(value, m)));
    lemma_scale(value(u), value(s));
    lemma_ratio(ops, true, m[0][1], m[1][0], s, q[0], value);
    lemma_ratio(ops, true, m[1][2], m[2][1], s, q[2], value);
    lemma_ratio(ops, false, m[0][2], m[2][0], s, q[3], value);
}

/// What was found where the third component came first.
proof fn lemma_ratios_z<T, O: RotationOps<T>>(
    ops: &O,
    m: Seq<Seq<T>>,
    one: T,
    s: T,
    u: T,
    q: Seq<T>,
    value: spec_fn(T) -> real,
)
    requires
        turns_exactly(ops, value),
        value(one) == 1 as real,
        crate::rotation::is_balance(ops, one, m[2][2], m[0][0], m[1][1], u),
        crate::rotation::doubled_root_of(ops, u, s),
        crate::rotation::are_components(ops, m, Pivot::Z, s, q),
        zz(matrix(value, m)) > 0 as real,
    ensures
        ({
            let a = matrix(value, m);
            let p = crate::rotation_laws::quaternion(value, q);
            let d = value(s);
            &&& d * d == 4 as real * zz(a)
            &&& 4 as real * p.z == d
            &&& p.x * d == xz(a)
            &&& p.y * d == yz(a)
            &&& p.w * d == wz(a)
        }),
{
    assert(value(u) == zz(matrix(value, m)));
    lemma_scale(value(u), value(s));
    lemma_ratio(ops, true, m[0][2], m[2][0], s, q[0], value);
    lemma_ratio(ops, true, m[1][2], m[2][1], s, q[1], value);
    lemma_ratio(ops, false, m[1][0], m[0][1], s, q[3], value);
}

/// The first coordinate of a vector between a quaternion and its conjugate.
proof fn lemma_sandwich_x(m: Matrix, q: Quaternion, v: Quaternion)
    requires
        has_products(m, q),
        v.w == 0 as real,
    ensures
        crate::rotation_laws::sandwich(q, v).x == m.xx * v.x + m.xy * v.y + m.xz * v.z,
{
    let l = crate::rotation_laws::product(q, v);
    lemma_none(q.x);
    lemma_none(q.y);
    lemma_none(q.z);
    lemma_none(q.w);
    assert(l.x == q.w * v.x + q.y * v.z - q.z * v.y);
    assert(l.y == q.w * v.y - q.x * v.z + q.z * v.x);
    assert(l.z == q.w * v.z + q.x * v.y - q.y * v.x);
    assert(l.w == -(q.x * v.x) - q.y * v.y - q.z * v.z);
    let s = crate::rotation_laws::sandwich(q, v);
    lemma_turned_sign(l.w, q.x);
    lemma_turned_sign(l.y, q.z);
    lemma_turned_sign(l.z, q.y);
    assert(s.x == -(l.w * q.x) + l.x * q.w - l.y * q.z + l.z * q.y);
    // The four products, term by term.
    assert(l.w * q.x == -((q.x * q.x) * v.x) - (q.x * q.y) * v.y - (q.z * q.x) * v.z) by {
        lemma_spread(-(q.x * v.x) - q.y * v.y, q.z * v.z, q.x);
        lemma_spread(-(q.x * v.x), q.y * v.y, q.x);
        lemma_turned_sign(q.x, q.x * v.x);
        lemma_turned_left(q.x * v.x, q.x);
        lemma_three(q.x, v.x, q.x);
        lemma_three(q.x, q.x, v.x);
        lemma_three(q.y, v.y, q.x);
        lemma_three(q.x, q.y, v.y);
        lemma_three(q.z, v.z, q.x);
        lemma_three(q.z, q.x, v.z);
    }
    assert(l.x * q.w == (q.w * q.w) * v.x + (q.w * q.y) * v.z - (q.w * q.z) * v.y) by {
        lemma_spread(q.w * v.x + q.y * v.z, q.z * v.y, q.w);
        lemma_spread(q.w * v.x, q.y * v.z, q.w);
        lemma_three(q.w, v.x, q.w);
        lemma_three(q.w, q.w, v.x);
        lemma_three(q.y, v.z, q.w);
        lemma_three(q.w, q.y, v.z);
        lemma_three(q.z, v.y, q.w);
        lemma_three(q.w, q.z, v.y);
    }
    assert(l.y * q.z == (q.w * q.z) * v.y - (q.z * q.x) * v.z + (q.z * q.z) * v.x) by {
        lemma_spread(q.w * v.y - q.x * v.z, q.z * v.x, q.z);
        lemma_spread(q.w * v.y, q.x * v.z, q.z);
        lemma_three(q.w, v.y, q.z);
        lemma_three(q.w, q.z, v.y);
        lemma_three(q.x, v.z, q.z);
        lemma_three(q.z, q.x, v.z);
        lemma_three(q.z, v.x, q.z);
        lemma_three(q.z, q.z, v.x);
    }
    assert(l.z * q.y == (q.w * q.y) * v.z + (q.x * q.y) * v.y - (q.y * q.y) * v.x) by {
        lemma_spread(q.w * v.z + q.x * v.y, q.y * v.x, q.y);
        lemma_spread(q.w * v.z, q.x * v.y, q.y);
        lemma_three(q.w, v.z, q.y);
        lemma_three(q.w, q.y, v.z);
        lemma_three(q.x, v.y, q.y);
        lemma_three(q.x, q.y, v.y);
        lemma_three(q.y, v.x, q.y);
        lemma_three(q.y, q.y, v.x);
    }
    // The coefficients of the coordinates.
    let (a, b, c, d) = (q.w * q.w, q.x * q.x, q.y * q.y, q.z * q.z);
    lemma_spread(a + b - c, d, v.x);
    lemma_spread(a + b, c, v.x);
    lemma_spread(a, b, v.x);
    assert(a + b - c - d == m.xx);
    let (e, f) = (q.x * q.y, q.w * q.z);
    lemma_spread(e + e - f, f, v.y);
    lemma_spread(e + e, f, v.y);
    lemma_spread(e, e, v.y);
    assert(e + e - f - f == m.xy);
    let (g, h) = (q.z * q.x, q.w * q.y);
    lemma_spread(g + g + h, h, v.z);
    lemma_spread(g + g, h, v.z);
    lemma_spread(g, g, v.z);
    assert(g + g + h + h == m.xz);
}

proof fn lemma_turned_sign(a: real, b: real)
    ensures
        a * -b == -(a * b),
{
    assert(a * -b == -(a * b)) by (nonlinear_arith);
}

proof fn lemma_turned_left(a: real, b: real)
    ensures
        (-a) * b == -(a * b),
{
    assert((-a) * b == -(a * b)) by (nonlinear_arith);
}

/// A quaternion with the products of a turn acts as the turn does.
pub proof fn law_turns_alike(m: Matrix, q: Quaternion, v: Quaternion)
    requires
        has_products(m, q),
        v.w == 0 as real,
    ensures
        ({
            let s = crate::rotation_laws::sandwich(q, v);
            &&& s.x == m.xx * v.x + m.xy * v.y + m.xz * v.z
            &&& s.y == m.yx * v.x + m.yy * v.y + m.yz * v.z
            &&& s.z == m.zx * v.x + m.zy * v.y + m.zz * v.z
        }),
{
    lemma_sandwich_x(m, q, v);
    let m1 = renamed(m);
    let q1 = Quaternion { x: q.y, y: q.z, z: q.x, w: q.w };
    let v1 = Quaternion { x: v.y, y: v.z, z: v.x, w: v.w };
    lemma_sandwich_x(m1, q1, v1);
    lemma_sandwich_renamed(q, v);
    let q2 = Quaternion { x: q1.y, y: q1.z, z: q1.x, w: q1.w };
    let v2 = Quaternion { x: v1.y, y: v1.z, z: v1.x, w: v1.w };
    lemma_sandwich_x(renamed(m1), q2, v2);
    lemma_sandwich_renamed(q1, v1);
}

proof fn lemma_sandwich_renamed(q: Quaternion, v: Quaternion)
    ensures
        ({
            let s = crate::rotation_laws::sandwich(q, v);
            let q1 = Quaternion { x: q.y, y: q.z, z: q.x, w: q.w };
            let v1 = Quaternion { x: v.y, y: v.z, z: v.x, w: v.w };
            let t = crate::rotation_laws::sandwich(q1, v1);
            t.x == s.y && t.y == s.z && t.z == s.x
        }),
{
}

/// In exact arithmetic the quaternion of a rotation matrix moves a vector to
/// where the matrix moves it.
pub proof fn law_quaternion_acts_as_matrix<T, O: RotationOps<T>>(
    ops: &O,
    m: Seq<Seq<T>>,
    zero: T,
    one: T,
    q: Seq<T>,
    v: Seq<T>,
    r: Seq<T>,
    value: spec_fn(T) -> real,
)
    requires
        turns_exactly(ops, value),
        value(zero) == 0 as real,
        value(one) == 1 as real,
        has_unit_rows(matrix(value, m)),
        determinant(matrix(value, m)) == 1 as real,
        q.len() == 4,
        v.len() == 3,
        crate::rotation::is_unitquat(ops, m, one, q),
        crate::rotation::is_action(ops, zero, q, v, r),
    ensures
        forall|c: int|
            0 <= c < 3 ==> value(#[trigger] r[c]) == crate::rotation_laws::inner(value, m[c], v),
{
    law_unit_quaternion(ops, m, one, q, value);
    crate::rotation_laws::law_exact_action(ops, zero, q, v, r, value);
    law_turns_alike(
        matrix(value, m),
        crate::rotation_laws::quaternion(value, q),
        crate::rotation_laws::quaternion(value, v.push(zero)),
    );
}

} // verus!
