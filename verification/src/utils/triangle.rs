//! The point of a triangle that is nearest to another point.
use vstd::prelude::*;

use crate::rotation::{inner, minor};
use crate::scalar::{Arithmetic, Division};

verus! {

/// The operations that find a nearest point. Nothing is taken for granted of
/// what they return.
pub trait NearestOps<T>: Division<T> {
    fn at_most(&self, a: T, b: T) -> bool;
}

pub open spec fn says_at_most<T, O: NearestOps<T>>(ops: &O, a: T, b: T, r: bool) -> bool {
    call_ensures(O::at_most, (ops, a, b), r)
}

/// `r` leads from `b` to `a`.
pub open spec fn is_offset<T, O: Arithmetic<T>>(ops: &O, a: Seq<T>, b: Seq<T>, r: Seq<T>) -> bool {
    &&& r.len() == 3
    &&& crate::scalar::difference_of(ops, a[0], b[0], r[0])
    &&& crate::scalar::difference_of(ops, a[1], b[1], r[1])
    &&& crate::scalar::difference_of(ops, a[2], b[2], r[2])
}

fn offset<T: Copy, O: Arithmetic<T>>(ops: &O, a: &[T; 3], b: &[T; 3]) -> (r: [T; 3])
    ensures
        is_offset(ops, a@, b@, r@),
{
    [ops.minus(a[0], b[0]), ops.minus(a[1], b[1]), ops.minus(a[2], b[2])]
}

/// How a point lies to a triangle: the edges from its first corner, their
/// inner products with the offsets of the point from the corners, and on
/// which side of the edges the point is.
#[derive(Debug, Clone, Copy)]
pub struct Bearing<T> {
    pub ab: [T; 3],
    pub ac: [T; 3],
    pub ap: [T; 3],
    pub bp: [T; 3],
    pub cp: [T; 3],
    pub d1: T,
    pub d2: T,
    pub d3: T,
    pub d4: T,
    pub d5: T,
    pub d6: T,
    pub vc: T,
    pub vb: T,
    pub va: T,
    /// `d4 - d3`.
    pub e: T,
    /// `d5 - d6`.
    pub f: T,
}

pub open spec fn is_bearing<T, O: Arithmetic<T>>(
    ops: &O,
    p: Seq<T>,
    a: Seq<T>,
    b: Seq<T>,
    c: Seq<T>,
    s: Bearing<T>,
) -> bool {
    &&& is_offset(ops, b, a, s.ab@)
    &&& is_offset(ops, c, a, s.ac@)
    &&& is_offset(ops, p, a, s.ap@)
    &&& is_offset(ops, p, b, s.bp@)
    &&& is_offset(ops, p, c, s.cp@)
    &&& crate::rotation::is_inner(ops, s.ab@, s.ap@, s.d1)
    &&& crate::rotation::is_inner(ops, s.ac@, s.ap@, s.d2)
    &&& crate::rotation::is_inner(ops, s.ab@, s.bp@, s.d3)
    &&& crate::rotation::is_inner(ops, s.ac@, s.bp@, s.d4)
    &&& crate::rotation::is_inner(ops, s.ab@, s.cp@, s.d5)
    &&& crate::rotation::is_inner(ops, s.ac@, s.cp@, s.d6)
    &&& crate::rotation::is_minor(ops, s.d1, s.d4, s.d3, s.d2, s.vc)
    &&& crate::rotation::is_minor(ops, s.d5, s.d2, s.d1, s.d6, s.vb)
    &&& crate::rotation::is_minor(ops, s.d3, s.d6, s.d5, s.d4, s.va)
    &&& crate::scalar::difference_of(ops, s.d4, s.d3, s.e)
    &&& crate::scalar::difference_of(ops, s.d5, s.d6, s.f)
}

fn bearing<T: Copy, O: Arithmetic<T>>(
    ops: &O,
    p: &[T; 3],
    a: &[T; 3],
    b: &[T; 3],
    c: &[T; 3],
) -> (s: Bearing<T>)
    ensures
        is_bearing(ops, p@, a@, b@, c@, s),
{
    let ab = offset(ops, b, a);
    let ac = offset(ops, c, a);
    let ap = offset(ops, p, a);
    let bp = offset(ops, p, b);
    let cp = offset(ops, p, c);
    let d1 = inner(ops, &ab, &ap);
    let d2 = inner(ops, &ac, &ap);
    let d3 = inner(ops, &ab, &bp);
    let d4 = inner(ops, &ac, &bp);
    let d5 = inner(ops, &ab, &cp);
    let d6 = inner(ops, &ac, &cp);
    let vc = minor(ops, d1, d4, d3, d2);
    let vb = minor(ops, d5, d2, d1, d6);
    let va = minor(ops, d3, d6, d5, d4);
    let e = ops.minus(d4, d3);
    let f = ops.minus(d5, d6);
    Bearing { ab, ac, ap, bp, cp, d1, d2, d3, d4, d5, d6, vc, vb, va, e, f }
}

/// Where the nearest point lies: at a corner, on an edge or inside.
#[derive(Debug, Clone, Copy, PartialEq, Eq, Structural)]
pub enum Region {
    A,
    B,
    Ab,
    C,
    Ac,
    Bc,
    Inside,
}

/// What has to be at most what for the nearest point to lie in the region.
pub open spec fn conditions<T>(s: Bearing<T>, zero: T, r: Region) -> Seq<(T, T)> {
    match r {
        Region::A => seq![(s.d1, zero), (s.d2, zero)],
        Region::B => seq![(zero, s.d3), (s.d4, s.d3)],
        Region::Ab => seq![(s.vc, zero), (zero, s.d1), (s.d3, zero)],
        Region::C => seq![(zero, s.d6), (s.d5, s.d6)],
        Region::Ac => seq![(s.vb, zero), (zero, s.d2), (s.d6, zero)],
        Region::Bc => seq![(s.va, zero), (zero, s.e), (zero, s.f)],
        Region::Inside => Seq::empty(),
    }
}

/// All conditions hold.
pub open spec fn all_hold<T, O: NearestOps<T>>(ops: &O, pairs: Seq<(T, T)>) -> bool {
    forall|i: int|
        0 <= i < pairs.len() ==> says_at_most(ops, (#[trigger] pairs[i]).0, pairs[i].1, true)
}

/// One of the conditions fails.
pub open spec fn one_fails<T, O: NearestOps<T>>(ops: &O, pairs: Seq<(T, T)>) -> bool {
    exists|i: int|
        0 <= i < pairs.len() && says_at_most(ops, (#[trigger] pairs[i]).0, pairs[i].1, false)
}

/// The regions that are tried before `r`.
pub open spec fn before(r: Region) -> Seq<Region> {
    match r {
        Region::A => Seq::empty(),
        Region::B => seq![Region::A],
        Region::Ab => seq![Region::A, Region::B],
        Region::C => seq![Region::A, Region::B, Region::Ab],
        Region::Ac => seq![Region::A, Region::B, Region::Ab, Region::C],
        Region::Bc => seq![Region::A, Region::B, Region::Ab, Region::C, Region::Ac],
        Region::Inside => seq![
            Region::A,
            Region::B,
            Region::Ab,
            Region::C,
            Region::Ac,
            Region::Bc,
        ],
    }
}

/// `r` is the first region whose conditions hold.
pub open spec fn is_region<T, O: NearestOps<T>>(
    ops: &O,
    s: Bearing<T>,
    zero: T,
    r: Region,
) -> bool {
    &&& all_hold(ops, conditions(s, zero, r))
    &&& forall|i: int|
        0 <= i < before(r).len() ==> one_fails(ops, conditions(s, zero, #[trigger] before(r)[i]))
}

fn two_hold<T: Copy, O: NearestOps<T>>(ops: &O, a: (T, T), b: (T, T)) -> (r: bool)
    ensures
        r ==> all_hold(ops, seq![a, b]),
        !r ==> one_fails(ops, seq![a, b]),
{
    let ghost pairs = seq![a, b];
    if !ops.at_most(a.0, a.1) {
        assert(says_at_most(ops, pairs[0].0, pairs[0].1, false));
        return false;
    }
    if !ops.at_most(b.0, b.1) {
        assert(says_at_most(ops, pairs[1].0, pairs[1].1, false));
        return false;
    }
    true
}

fn three_hold<T: Copy, O: NearestOps<T>>(ops: &O, a: (T, T), b: (T, T), c: (T, T)) -> (r: bool)
    ensures
        r ==> all_hold(ops, seq![a, b, c]),
        !r ==> one_fails(ops, seq![a, b, c]),
{
    let ghost pairs = seq![a, b, c];
    if !ops.at_most(a.0, a.1) {
        assert(says_at_most(ops, pairs[0].0, pairs[0].1, false));
        return false;
    }
    if !ops.at_most(b.0, b.1) {
        assert(says_at_most(ops, pairs[1].0, pairs[1].1, false));
        return false;
    }
    if !ops.at_most(c.0, c.1) {
        assert(says_at_most(ops, pairs[2].0, pairs[2].1, false));
        return false;
    }
    true
}

fn region<T: Copy, O: NearestOps<T>>(ops: &O, s: &Bearing<T>, zero: T) -> (r: Region)
    ensures
        is_region(ops, *s, zero, r),
{
    if two_hold(ops, (s.d1, zero), (s.d2, zero)) {
        return Region::A;
    }
    if two_hold(ops, (zero, s.d3), (s.d4, s.d3)) {
        return Region::B;
    }
    if three_hold(ops, (s.vc, zero), (zero, s.d1), (s.d3, zero)) {
        return Region::Ab;
    }
    if two_hold(ops, (zero, s.d6), (s.d5, s.d6)) {
        return Region::C;
    }
    if three_hold(ops, (s.vb, zero), (zero, s.d2), (s.d6, zero)) {
        return Region::Ac;
    }
    if three_hold(ops, (s.va, zero), (zero, s.e), (zero, s.f)) {
        return Region::Bc;
    }
    Region::Inside
}

/// `q` is `a` with `t` times `d` added.
pub open spec fn is_along<T, O: Arithmetic<T>>(
    ops: &O,
    a: Seq<T>,
    t: T,
    d: Seq<T>,
    q: Seq<T>,
) -> bool {
    &&& q.len() == 3
    &&& is_along_coordinate(ops, a[0], t, d[0], q[0])
    &&& is_along_coordinate(ops, a[1], t, d[1], q[1])
    &&& is_along_coordinate(ops, a[2], t, d[2], q[2])
}

pub open spec fn is_along_coordinate<T, O: Arithmetic<T>>(ops: &O, a: T, t: T, d: T, q: T) -> bool {
    exists|m: T| #[trigger]
        crate::scalar::product_of(ops, t, d, m) && crate::scalar::sum_of(ops, a, m, q)
}

fn along_coordinate<T: Copy, O: Arithmetic<T>>(ops: &O, a: T, t: T, d: T) -> (q: T)
    ensures
        is_along_coordinate(ops, a, t, d, q),
{
    let m = ops.times(t, d);
    let q = ops.plus(a, m);
    assert(crate::scalar::product_of(ops, t, d, m));
    q
}

fn along<T: Copy, O: Arithmetic<T>>(ops: &O, a: &[T; 3], t: T, d: &[T; 3]) -> (q: [T; 3])
    ensures
        is_along(ops, a@, t, d@, q@),
{
    [
        along_coordinate(ops, a[0], t, d[0]),
        along_coordinate(ops, a[1], t, d[1]),
        along_coordinate(ops, a[2], t, d[2]),
    ]
}

/// The nearest point of a triangle, and the shares of the corners in it.
#[derive(Debug, Clone, Copy)]
pub struct Foot<T> {
    pub point: [T; 3],
    pub shares: [T; 3],
}

/// `t` is `x` over `x - y`.
pub open spec fn is_part<T, O: NearestOps<T>>(ops: &O, x: T, y: T, t: T) -> bool {
    exists|d: T| #[trigger]
        crate::scalar::difference_of(ops, x, y, d) && crate::scalar::quotient_of(ops, x, d, t)
}

/// `t` is `x` over `x + y`.
pub open spec fn is_share<T, O: NearestOps<T>>(ops: &O, x: T, y: T, t: T) -> bool {
    exists|d: T| #[trigger] crate::scalar::sum_of(ops, x, y, d) && crate::scalar::quotient_of(ops, x, d, t)
}

/// `s` is one over the sum of the three.
pub open spec fn is_scale<T, O: NearestOps<T>>(ops: &O, one: T, x: T, y: T, z: T, s: T) -> bool {
    exists|u: T, d: T| #[trigger]
        crate::scalar::sum_of(ops, x, y, u) && #[trigger] crate::scalar::sum_of(ops, u, z, d)
            && crate::scalar::quotient_of(ops, one, d, s)
}

/// Where the foot lies, given its region.
pub open spec fn is_placed<T, O: NearestOps<T>>(
    ops: &O,
    a: [T; 3],
    b: [T; 3],
    c: [T; 3],
    s: Bearing<T>,
    zero: T,
    one: T,
    r: Region,
    foot: Foot<T>,
) -> bool {
    let u = foot.shares@[0];
    let v = foot.shares@[1];
    let w = foot.shares@[2];
    match r {
        Region::A => foot.point == a && u == one && v == zero && w == zero,
        Region::B => foot.point == b && u == zero && v == one && w == zero,
        Region::C => foot.point == c && u == zero && v == zero && w == one,
        Region::Ab => {
            &&& is_part(ops, s.d1, s.d3, v)
            &&& is_along(ops, a@, v, s.ab@, foot.point@)
            &&& crate::scalar::difference_of(ops, one, v, u)
            &&& w == zero
        },
        Region::Ac => {
            &&& is_part(ops, s.d2, s.d6, w)
            &&& is_along(ops, a@, w, s.ac@, foot.point@)
            &&& crate::scalar::difference_of(ops, one, w, u)
            &&& v == zero
        },
        Region::Bc => {
            &&& is_share(ops, s.e, s.f, w)
            &&& exists|bc: Seq<T>| #[trigger]
                is_offset(ops, c@, b@, bc) && is_along(ops, b@, w, bc, foot.point@)
            &&& crate::scalar::difference_of(ops, one, w, v)
            &&& u == zero
        },
        Region::Inside => {
            &&& exists|scale: T| #[trigger]
                is_scale(ops, one, s.va, s.vb, s.vc, scale) && crate::scalar::product_of(
                    ops,
                    s.vb,
                    scale,
                    v,
                ) && crate::scalar::product_of(ops, s.vc, scale, w)
            &&& exists|m: [T; 3]| #[trigger]
                is_along(ops, a@, v, s.ab@, m@) && is_along(ops, m@, w, s.ac@, foot.point@)
            &&& exists|m: T| #[trigger]
                crate::scalar::difference_of(ops, one, v, m) && crate::scalar::difference_of(
                    ops,
                    m,
                    w,
                    u,
                )
        },
    }
}

/// `foot` is the nearest point of the triangle to `p`.
pub open spec fn is_foot<T, O: NearestOps<T>>(
    ops: &O,
    p: [T; 3],
    a: [T; 3],
    b: [T; 3],
    c: [T; 3],
    zero: T,
    one: T,
    foot: Foot<T>,
) -> bool {
    exists|s: Bearing<T>, r: Region|
        {
            &&& #[trigger] is_bearing(ops, p@, a@, b@, c@, s)
            &&& #[trigger] is_region(ops, s, zero, r)
            &&& is_placed(ops, a, b, c, s, zero, one, r, foot)
        }
}

fn part<T: Copy, O: NearestOps<T>>(ops: &O, x: T, y: T) -> (t: T)
    ensures
        is_part(ops, x, y, t),
{
    let d = ops.minus(x, y);
    assert(crate::scalar::difference_of(ops, x, y, d));
    ops.quotient(x, d)
}

fn share<T: Copy, O: NearestOps<T>>(ops: &O, x: T, y: T) -> (t: T)
    ensures
        is_share(ops, x, y, t),
{
    let d = ops.plus(x, y);
    assert(crate::scalar::sum_of(ops, x, y, d));
    ops.quotient(x, d)
}

/// The point of the triangle that is nearest to `p`, and the shares of the
/// corners in it.
pub fn closest_point_on_triangle<T: Copy, O: NearestOps<T>>(
    p: &[T; 3],
    a: &[T; 3],
    b: &[T; 3],
    c: &[T; 3],
    zero: T,
    one: T,
    ops: &O,
) -> (foot: Foot<T>)
    ensures
        is_foot(ops, *p, *a, *b, *c, zero, one, foot),
{
    let s = bearing(ops, p, a, b, c);
    let r = region(ops, &s, zero);
    let foot = match r {
        Region::A => Foot { point: *a, shares: [one, zero, zero] },
        Region::B => Foot { point: *b, shares: [zero, one, zero] },
        Region::C => Foot { point: *c, shares: [zero, zero, one] },
        Region::Ab => {
            let v = part(ops, s.d1, s.d3);
            let u = ops.minus(one, v);
            let foot = Foot { point: along(ops, a, v, &s.ab), shares: [u, v, zero] };
            assert(is_placed(ops, *a, *b, *c, s, zero, one, r, foot));
            foot
        },
        Region::Ac => {
            let w = part(ops, s.d2, s.d6);
            let u = ops.minus(one, w);
            let foot = Foot { point: along(ops, a, w, &s.ac), shares: [u, zero, w] };
            assert(is_placed(ops, *a, *b, *c, s, zero, one, r, foot));
            foot
        },
        Region::Bc => {
            let w = share(ops, s.e, s.f);
            let bc = offset(ops, c, b);
            let v = ops.minus(one, w);
            let point = along(ops, b, w, &bc);
            assert(is_offset(ops, c@, b@, bc@) && is_along(ops, b@, w, bc@, point@));
            let foot = Foot { point, shares: [zero, v, w] };
            assert(is_placed(ops, *a, *b, *c, s, zero, one, r, foot));
            foot
        },
        Region::Inside => {
            let x = ops.plus(s.va, s.vb);
            let d = ops.plus(x, s.vc);
            let scale = ops.quotient(one, d);
            assert(crate::scalar::sum_of(ops, s.va, s.vb, x) && crate::scalar::sum_of(
                ops,
                x,
                s.vc,
                d,
            ));
            assert(is_scale(ops, one, s.va, s.vb, s.vc, scale));
            let v = ops.times(s.vb, scale);
            let w = ops.times(s.vc, scale);
            let m = along(ops, a, v, &s.ab);
            let rest = ops.minus(one, v);
            let u = ops.minus(rest, w);
            let point = along(ops, &m, w, &s.ac);
            assert(is_along(ops, a@, v, s.ab@, m@) && is_along(ops, m@, w, s.ac@, point@));
            assert(crate::scalar::difference_of(ops, one, v, rest));
            let foot = Foot { point, shares: [u, v, w] };
            proof {
                assert(foot.shares@[0] == u && foot.shares@[1] == v && foot.shares@[2] == w);
                assert(crate::scalar::product_of(ops, s.vb, scale, v));
                assert(crate::scalar::product_of(ops, s.vc, scale, w));
                assert(crate::scalar::difference_of(ops, rest, w, u));
            }
            assert(is_placed(ops, *a, *b, *c, s, zero, one, r, foot));
            foot
        },
    };
    foot
}

} // verus!
