//! In exact arithmetic dual quaternion skinning depends only on the numbers
//! that its arguments stand for.
use vstd::prelude::*;

use crate::rotation::{Pivot, RotationOps};
use crate::rotation_laws::Quaternion;
use crate::skinning::dual::{DualQuaternion, MotionOps};

verus! {

/// The motions stand for the same numbers.
pub open spec fn alike<T>(
    value: spec_fn(T) -> real,
    a: DualQuaternion<T>,
    b: DualQuaternion<T>,
) -> bool {
    &&& crate::rotation_laws::quaternion(value, a.0@) == crate::rotation_laws::quaternion(
        value,
        b.0@,
    )
    &&& crate::rotation_laws::quaternion(value, a.1@) == crate::rotation_laws::quaternion(
        value,
        b.1@,
    )
}

/// What the pivot is, in the numbers of the matrix.
proof fn lemma_pivot_square<T, O: RotationOps<T>>(
    ops: &O,
    m: Seq<Seq<T>>,
    one: T,
    trace: T,
    pivot: Pivot,
    u: T,
    value: spec_fn(T) -> real,
)
    requires
        crate::unit_quaternion_laws::turns_exactly(ops, value),
        value(one) == 1 as real,
        crate::rotation::is_trace(ops, m, trace),
        crate::rotation::is_pivot(ops, m, trace, pivot),
        crate::rotation::is_square(ops, m, one, trace, pivot, u),
    ensures
        ({
            let x = value(m[0][0]);
            let y = value(m[1][1]);
            let z = value(m[2][2]);
            &&& pivot == (if x + y + z > 0 as real {
                Pivot::W
            } else if x > y && x > z {
                Pivot::X
            } else if y > z {
                Pivot::Y
            } else {
                Pivot::Z
            })
            &&& value(u) == (match pivot {
                Pivot::W => x + y + z + 1 as real,
                Pivot::X => 1 as real + x - y - z,
                Pivot::Y => 1 as real + y - x - z,
                Pivot::Z => 1 as real + z - x - y,
            })
            &&& value(u) > 0 as real
        }),
{
}

/// A ratio of the same numbers is the same number.
proof fn lemma_same_ratio<T, O: RotationOps<T>>(
    ops: &O,
    add: bool,
    a: T,
    b: T,
    s: T,
    r: T,
    c: T,
    d: T,
    t: T,
    q: T,
    value: spec_fn(T) -> real,
)
    requires
        crate::unit_quaternion_laws::turns_exactly(ops, value),
        value(s) > 0 as real,
        value(s) == value(t),
        value(a) == value(c),
        value(b) == value(d),
        crate::rotation::is_ratio(ops, add, a, b, s, r),
        crate::rotation::is_ratio(ops, add, c, d, t, q),
    ensures
        value(r) == value(q),
{
    let u = choose|u: T|
        (if add {
            crate::scalar::sum_of(ops, a, b, u)
        } else {
            crate::scalar::difference_of(ops, a, b, u)
        }) && #[trigger] crate::scalar::quotient_of(ops, u, s, r);
    let v = choose|u: T|
        (if add {
            crate::scalar::sum_of(ops, c, d, u)
        } else {
            crate::scalar::difference_of(ops, c, d, u)
        }) && #[trigger] crate::scalar::quotient_of(ops, u, t, q);
    assert(value(u) == value(v));
}

/// Matrices of the same numbers have quaternions of the same numbers.
proof fn lemma_same_quaternion<T, O: RotationOps<T>>(
    ops: &O,
    m: Seq<Seq<T>>,
    n: Seq<Seq<T>>,
    one: T,
    p: Seq<T>,
    q: Seq<T>,
    value: spec_fn(T) -> real,
)
    requires
        crate::unit_quaternion_laws::turns_exactly(ops, value),
        value(one) == 1 as real,
        crate::unit_quaternion_laws::matrix(value, m) == crate::unit_quaternion_laws::matrix(
            value,
            n,
        ),
        crate::rotation::is_unitquat(ops, m, one, p),
        crate::rotation::is_unitquat(ops, n, one, q),
    ensures
        crate::rotation_laws::quaternion(value, p) == crate::rotation_laws::quaternion(value, q),
{
    let (tm, pm, sm) = choose|trace: T, pivot: Pivot, s: T|
        {
            &&& crate::rotation::is_trace(ops, m, trace)
            &&& crate::rotation::is_pivot(ops, m, trace, pivot)
            &&& #[trigger] crate::rotation::is_scale(ops, m, one, trace, pivot, s)
            &&& crate::rotation::are_components(ops, m, pivot, s, p)
        };
    let um = choose|u: T| #[trigger]
        crate::rotation::is_square(ops, m, one, tm, pm, u) && crate::rotation::doubled_root_of(
            ops,
            u,
            sm,
        );
    let (tn, pn, sn) = choose|trace: T, pivot: Pivot, s: T|
        {
            &&& crate::rotation::is_trace(ops, n, trace)
            &&& crate::rotation::is_pivot(ops, n, trace, pivot)
            &&& #[trigger] crate::rotation::is_scale(ops, n, one, trace, pivot, s)
            &&& crate::rotation::are_components(ops, n, pivot, s, q)
        };
    let un = choose|u: T| #[trigger]
        crate::rotation::is_square(ops, n, one, tn, pn, u) && crate::rotation::doubled_root_of(
            ops,
            u,
            sn,
        );
    lemma_pivot_square(ops, m, one, tm, pm, um, value);
    lemma_pivot_square(ops, n, one, tn, pn, un, value);
    assert(pm == pn);
    assert(value(um) == value(un));
    crate::skinning::rigid_laws::lemma_same_root(value(sm), value(sn));
    if value(sm) == 0 as real {
        assert(value(sm) * value(sm) == 0 as real) by (nonlinear_arith)
            requires
                value(sm) == 0 as real,
        ;
    }
    match pm {
        Pivot::W => {
            lemma_same_ratio(ops, false, m[2][1], m[1][2], sm, p[0], n[2][1], n[1][2], sn, q[0], value);
            lemma_same_ratio(ops, false, m[0][2], m[2][0], sm, p[1], n[0][2], n[2][0], sn, q[1], value);
            lemma_same_ratio(ops, false, m[1][0], m[0][1], sm, p[2], n[1][0], n[0][1], sn, q[2], value);
        },
        Pivot::X => {
            lemma_same_ratio(ops, true, m[0][1], m[1][0], sm, p[1], n[0][1], n[1][0], sn, q[1], value);
            lemma_same_ratio(ops, true, m[0][2], m[2][0], sm, p[2], n[0][2], n[2][0], sn, q[2], value);
            lemma_same_ratio(ops, false, m[2][1], m[1][2], sm, p[3], n[2][1], n[1][2], sn, q[3], value);
        },
        Pivot::Y => {
            lemma_same_ratio(ops, true, m[0][1], m[1][0], sm, p[0], n[0][1], n[1][0], sn, q[0], value);
            lemma_same_ratio(ops, true, m[1][2], m[2][1], sm, p[2], n[1][2], n[2][1], sn, q[2], value);
            lemma_same_ratio(ops, false, m[0][2], m[2][0], sm, p[3], n[0][2], n[2][0], sn, q[3], value);
        },
        Pivot::Z => {
            lemma_same_ratio(ops, true, m[0][2], m[2][0], sm, p[0], n[0][2], n[2][0], sn, q[0], value);
            lemma_same_ratio(ops, true, m[1][2], m[2][1], sm, p[1], n[1][2], n[2][1], sn, q[1], value);
            lemma_same_ratio(ops, false, m[1][0], m[0][1], sm, p[3], n[1][0], n[0][1], sn, q[3], value);
        },
    }
}

/// The matrices stand for the same turns and shifts.
pub open spec fn same_matrices<T>(
    value: spec_fn(T) -> real,
    a: Seq<[[T; 4]; 4]>,
    b: Seq<[[T; 4]; 4]>,
) -> bool {
    &&& a.len() == b.len()
    &&& forall|i: int, r: int, c: int|
        0 <= i < a.len() && 0 <= r < 3 && 0 <= c < 4 ==> value(#[trigger] a[i]@[r]@[c]) == value(
            b[i]@[r]@[c],
        )
}

/// Transforms of the same numbers are motions of the same numbers.
proof fn lemma_same_dual<T, O: MotionOps<T>>(
    ops: &O,
    one: T,
    h: Seq<Seq<T>>,
    k: Seq<Seq<T>>,
    p: DualQuaternion<T>,
    q: DualQuaternion<T>,
    value: spec_fn(T) -> real,
)
    requires
        crate::skinning::dual_laws::moves_exactly(ops, value),
        value(one) == 1 as real,
        h.len() == 4,
        k.len() == 4,
        forall|r: int| 0 <= r < 3 ==> (#[trigger] h[r]).len() == 4,
        forall|r: int| 0 <= r < 3 ==> (#[trigger] k[r]).len() == 4,
        forall|r: int, c: int|
            0 <= r < 3 && 0 <= c < 4 ==> value(#[trigger] h[r][c]) == value(k[r][c]),
        crate::skinning::dual::is_dual(ops, one, h, p),
        crate::skinning::dual::is_dual(ops, one, k, q),
    ensures
        alike(value, p, q),
{
    let m = crate::rotation::linear_part(h);
    let n = crate::rotation::linear_part(k);
    assert(value(h[0][0]) == value(k[0][0]) && value(h[0][1]) == value(k[0][1]));
    assert(value(h[0][2]) == value(k[0][2]) && value(h[0][3]) == value(k[0][3]));
    assert(value(h[1][0]) == value(k[1][0]) && value(h[1][1]) == value(k[1][1]));
    assert(value(h[1][2]) == value(k[1][2]) && value(h[1][3]) == value(k[1][3]));
    assert(value(h[2][0]) == value(k[2][0]) && value(h[2][1]) == value(k[2][1]));
    assert(value(h[2][2]) == value(k[2][2]) && value(h[2][3]) == value(k[2][3]));
    lemma_same_quaternion(ops, m, n, one, p.0@, q.0@, value);
    let f = choose|half: Seq<T>| #[trigger]
        crate::skinning::dual::are_halves(ops, crate::rotation::translation_part(h), half)
            && crate::rotation::is_product(ops, half.push(one), p.0@, p.1@);
    let g = choose|half: Seq<T>| #[trigger]
        crate::skinning::dual::are_halves(ops, crate::rotation::translation_part(k), half)
            && crate::rotation::is_product(ops, half.push(one), q.0@, q.1@);
    assert(value(f[0]) == value(g[0]) && value(f[1]) == value(g[1]) && value(f[2]) == value(g[2]));
    crate::rotation_laws::law_exact_product(ops, f.push(one), p.0@, p.1@, value);
    crate::rotation_laws::law_exact_product(ops, g.push(one), q.0@, q.1@, value);
    assert(crate::rotation_laws::quaternion(value, f.push(one))
        == crate::rotation_laws::quaternion(value, g.push(one)));
}

/// The inner product of two motions, in their numbers.
proof fn lemma_inner<T, O: MotionOps<T>>(
    ops: &O,
    a: DualQuaternion<T>,
    b: DualQuaternion<T>,
    r: bool,
    value: spec_fn(T) -> real,
)
    requires
        crate::skinning::dual_laws::moves_exactly(ops, value),
        crate::skinning::dual::is_agreement(ops, a, b, r),
    ensures
        r == (exact_inner(
            crate::rotation_laws::quaternion(value, a.0@),
            crate::rotation_laws::quaternion(value, b.0@),
        ) + exact_inner(
            crate::rotation_laws::quaternion(value, a.1@),
            crate::rotation_laws::quaternion(value, b.1@),
        ) >= 0 as real),
{
    let d = choose|d: T| #[trigger]
        crate::skinning::dual::is_dual_inner(ops, a, b, d)
            && crate::skinning::dual::says_not_negative(ops, d, r);
    let (x, y) = choose|x: T, y: T|
        {
            &&& #[trigger] crate::rotation::is_signed_sum(
                ops,
                crate::skinning::dual::four_terms(a.0@, b.0@),
                x,
            )
            &&& #[trigger] crate::rotation::is_signed_sum(
                ops,
                crate::skinning::dual::four_terms(a.1@, b.1@),
                y,
            )
            &&& crate::scalar::sum_of(ops, x, y, d)
        };
    crate::skinning::dual_laws::lemma_four(ops, a.0@, b.0@, x, value);
    crate::skinning::dual_laws::lemma_four(ops, a.1@, b.1@, y, value);
}

/// The inner product of two quaternions.
pub open spec fn exact_inner(
    a: Quaternion,
    b: Quaternion,
) -> real {
    a.x * b.x + a.y * b.y + a.z * b.z + a.w * b.w
}

/// Motions of the same numbers are turned over alike.
proof fn lemma_same_aligned<T, O: MotionOps<T>>(
    ops: &O,
    first: DualQuaternion<T>,
    raw: DualQuaternion<T>,
    p: DualQuaternion<T>,
    other: DualQuaternion<T>,
    bare: DualQuaternion<T>,
    q: DualQuaternion<T>,
    value: spec_fn(T) -> real,
)
    requires
        crate::skinning::dual_laws::moves_exactly(ops, value),
        alike(value, first, other),
        alike(value, raw, bare),
        crate::skinning::is_aligned(ops, first, raw, p),
        crate::skinning::is_aligned(ops, other, bare, q),
    ensures
        alike(value, p, q),
{
    let stays = exact_inner(
        crate::rotation_laws::quaternion(value, raw.0@),
        crate::rotation_laws::quaternion(value, first.0@),
    ) + exact_inner(
        crate::rotation_laws::quaternion(value, raw.1@),
        crate::rotation_laws::quaternion(value, first.1@),
    ) >= 0 as real;
    if crate::skinning::dual::is_agreement(ops, raw, first, !stays) {
        lemma_inner(ops, raw, first, !stays, value);
    }
    if crate::skinning::dual::is_agreement(ops, bare, other, !stays) {
        lemma_inner(ops, bare, other, !stays, value);
    }
    if !stays {
        lemma_opposite(ops, raw, p, value);
        lemma_opposite(ops, bare, q, value);
    }
}

proof fn lemma_opposite<T, O: MotionOps<T>>(
    ops: &O,
    q: DualQuaternion<T>,
    r: DualQuaternion<T>,
    value: spec_fn(T) -> real,
)
    requires
        crate::skinning::dual_laws::moves_exactly(ops, value),
        crate::skinning::dual::is_opposite(ops, q, r),
    ensures
        forall|c: int| 0 <= c < 4 ==> value(#[trigger] r.0@[c]) == -value(q.0@[c]),
        forall|c: int| 0 <= c < 4 ==> value(#[trigger] r.1@[c]) == -value(q.1@[c]),
        crate::rotation_laws::quaternion(value, r.0@) == crate::rotation_laws::negated(
            crate::rotation_laws::quaternion(value, q.0@),
        ),
        crate::rotation_laws::quaternion(value, r.1@) == crate::rotation_laws::negated(
            crate::rotation_laws::quaternion(value, q.1@),
        ),
{
    assert(value(r.0@[0]) == -value(q.0@[0]) && value(r.0@[1]) == -value(q.0@[1]));
    assert(value(r.0@[2]) == -value(q.0@[2]) && value(r.0@[3]) == -value(q.0@[3]));
    assert(value(r.1@[0]) == -value(q.1@[0]) && value(r.1@[1]) == -value(q.1@[1]));
    assert(value(r.1@[2]) == -value(q.1@[2]) && value(r.1@[3]) == -value(q.1@[3]));
}

proof fn lemma_same_component<T, O: MotionOps<T>>(
    ops: &O,
    zero: T,
    weights: Seq<T>,
    ps: Seq<DualQuaternion<T>>,
    qs: Seq<DualQuaternion<T>>,
    p: DualQuaternion<T>,
    q: DualQuaternion<T>,
    translation: bool,
    c: int,
    value: spec_fn(T) -> real,
)
    requires
        crate::scalar::is_exact(ops, value),
        value(zero) == 0 as real,
        weights.len() == ps.len(),
        ps.len() == qs.len(),
        forall|i: int| 0 <= i < ps.len() ==> alike(value, #[trigger] ps[i], qs[i]),
        crate::skinning::is_mean(ops, zero, weights, ps, p),
        crate::skinning::is_mean(ops, zero, weights, qs, q),
        0 <= c < 4,
    ensures
        value(crate::skinning::part(p, translation)[c]) == value(
            crate::skinning::part(q, translation)[c],
        ),
{
    let s = crate::skinning::component_terms(weights, ps, translation, c);
    let t = crate::skinning::component_terms(weights, qs, translation, c);
    assert forall|i: int| 0 <= i < s.len() implies value((#[trigger] s[i]).0) == value(t[i].0)
        && value(s[i].1) == value(t[i].1) by {
        assert(alike(value, ps[i], qs[i]));
        assert(c == 0 || c == 1 || c == 2 || c == 3);
    }
    crate::models::round_trip_laws::lemma_same_sum(value, s, t);
    crate::utils::blend::law_exact_blend(
        ops,
        zero,
        s,
        crate::skinning::part(p, translation)[c],
        value,
    );
    crate::utils::blend::law_exact_blend(
        ops,
        zero,
        t,
        crate::skinning::part(q, translation)[c],
        value,
    );
}

/// Means of motions of the same numbers stand for the same numbers.
proof fn lemma_same_mean<T, O: MotionOps<T>>(
    ops: &O,
    zero: T,
    weights: Seq<T>,
    ps: Seq<DualQuaternion<T>>,
    qs: Seq<DualQuaternion<T>>,
    p: DualQuaternion<T>,
    q: DualQuaternion<T>,
    value: spec_fn(T) -> real,
)
    requires
        crate::scalar::is_exact(ops, value),
        value(zero) == 0 as real,
        weights.len() == ps.len(),
        ps.len() == qs.len(),
        forall|i: int| 0 <= i < ps.len() ==> alike(value, #[trigger] ps[i], qs[i]),
        crate::skinning::is_mean(ops, zero, weights, ps, p),
        crate::skinning::is_mean(ops, zero, weights, qs, q),
    ensures
        alike(value, p, q),
{
    assert forall|translation: bool, c: int| 0 <= c < 4 implies value(
        #[trigger] crate::skinning::part(p, translation)[c],
    ) == value(crate::skinning::part(q, translation)[c]) by {
        lemma_same_component(ops, zero, weights, ps, qs, p, q, translation, c, value);
    }
    assert(value(crate::skinning::part(p, false)[0]) == value(q.0@[0]));
    assert(value(crate::skinning::part(p, false)[1]) == value(q.0@[1]));
    assert(value(crate::skinning::part(p, false)[2]) == value(q.0@[2]));
    assert(value(crate::skinning::part(p, false)[3]) == value(q.0@[3]));
    assert(value(crate::skinning::part(p, true)[0]) == value(q.1@[0]));
    assert(value(crate::skinning::part(p, true)[1]) == value(q.1@[1]));
    assert(value(crate::skinning::part(p, true)[2]) == value(q.1@[2]));
    assert(value(crate::skinning::part(p, true)[3]) == value(q.1@[3]));
}

/// A quaternion over a number.
pub open spec fn over(q: Quaternion, n: real) -> Quaternion {
    Quaternion { x: q.x / n, y: q.y / n, z: q.z / n, w: q.w / n }
}

/// Half the way that a motion goes, and a scalar part.
pub open spec fn way(
    turn: Quaternion,
    shift: Quaternion,
) -> Quaternion {
    crate::rotation_laws::product(shift, crate::rotation_laws::conjugate(turn))
}

/// Where a motion takes a point, in their numbers.
proof fn lemma_moved<T, O: MotionOps<T>>(
    ops: &O,
    zero: T,
    q: DualQuaternion<T>,
    p: Seq<T>,
    r: Seq<T>,
    value: spec_fn(T) -> real,
) -> (n: real)
    requires
        crate::skinning::dual_laws::moves_exactly(ops, value),
        value(zero) == 0 as real,
        crate::rotation_laws::norm(crate::rotation_laws::quaternion(value, q.0@)) != 0 as real,
        p.len() == 3,
        crate::skinning::dual::is_moved(ops, zero, q, p, r),
    ensures
        crate::skinning::rigid_laws::is_length(crate::rotation_laws::quaternion(value, q.0@), n),
        ({
            let turn = over(crate::rotation_laws::quaternion(value, q.0@), n);
            let shift = over(crate::rotation_laws::quaternion(value, q.1@), n);
            let turned = crate::rotation_laws::sandwich(
                turn,
                crate::rotation_laws::quaternion(value, p.push(zero)),
            );
            let w = way(turn, shift);
            &&& value(r[0]) == turned.x + (w.x + w.x)
            &&& value(r[1]) == turned.y + (w.y + w.y)
            &&& value(r[2]) == turned.z + (w.z + w.z)
        }),
{
    let whole = crate::rotation_laws::quaternion(value, q.0@);
    crate::skinning::dual_laws::lemma_square(whole.x);
    crate::skinning::dual_laws::lemma_square(whole.y);
    crate::skinning::dual_laws::lemma_square(whole.z);
    crate::skinning::dual_laws::lemma_square(whole.w);
    let (u, back, gone, turned) = choose|
        u: DualQuaternion<T>,
        conjugate: Seq<T>,
        way: Seq<T>,
        turned: Seq<T>,
    |
        {
            &&& #[trigger] crate::skinning::dual::is_unit(ops, q, u)
            &&& #[trigger] crate::rotation::is_conjugate(ops, u.0@, conjugate)
            &&& #[trigger] crate::rotation::is_product(ops, u.1@, conjugate, way)
            &&& #[trigger] crate::rotation::is_action(ops, zero, u.0@, p, turned)
            &&& r.len() == 3
            &&& forall|c: int|
                0 <= c < 3 ==> crate::skinning::dual::is_landing(
                    ops,
                    turned[c],
                    way[c],
                    #[trigger] r[c],
                )
        };
    let n = crate::skinning::rigid_laws::lemma_unit_over(ops, q, u, value);
    let turn = over(whole, n);
    let shift = over(crate::rotation_laws::quaternion(value, q.1@), n);
    assert(value(u.0@[0]) == turn.x && value(u.0@[1]) == turn.y);
    assert(value(u.0@[2]) == turn.z && value(u.0@[3]) == turn.w);
    assert(value(u.1@[0]) == shift.x && value(u.1@[1]) == shift.y);
    assert(value(u.1@[2]) == shift.z && value(u.1@[3]) == shift.w);
    assert(crate::rotation_laws::quaternion(value, u.0@) == turn);
    assert(crate::rotation_laws::quaternion(value, u.1@) == shift);
    assert(crate::rotation_laws::quaternion(value, back) == crate::rotation_laws::conjugate(turn));
    crate::rotation_laws::law_exact_product(ops, u.1@, back, gone, value);
    crate::rotation_laws::law_exact_action(ops, zero, u.0@, p, turned, value);
    assert(crate::skinning::dual::is_landing(ops, turned[0], gone[0], r[0]));
    assert(crate::skinning::dual::is_landing(ops, turned[1], gone[1], r[1]));
    assert(crate::skinning::dual::is_landing(ops, turned[2], gone[2], r[2]));
    n
}

/// The mixture of the transforms turns: no mean of their motions has a rotation
/// of nothing.
pub open spec fn mixture_turns<T, O: MotionOps<T>>(
    ops: &O,
    zero: T,
    one: T,
    weights: Seq<T>,
    ms: Seq<[[T; 4]; 4]>,
    value: spec_fn(T) -> real,
) -> bool {
    forall|
        raw: Seq<DualQuaternion<T>>,
        aligned: Seq<DualQuaternion<T>>,
        mean: DualQuaternion<T>,
    |
        {
            &&& #[trigger] crate::skinning::are_duals(ops, one, ms, raw)
            &&& #[trigger] crate::skinning::are_aligned(ops, raw, aligned)
            &&& #[trigger] crate::skinning::is_mean(ops, zero, weights, aligned, mean)
        } ==> crate::rotation_laws::norm(crate::rotation_laws::quaternion(value, mean.0@))
            != 0 as real
}

/// Vertices with the same weights and transforms of the same numbers are moved
/// by motions of the same numbers.
proof fn lemma_same_motion<T, O: MotionOps<T>>(
    ops: &O,
    zero: T,
    one: T,
    weights: Seq<T>,
    a: Seq<[[T; 4]; 4]>,
    b: Seq<[[T; 4]; 4]>,
    p: [T; 3],
    x: [T; 3],
    q: [T; 3],
    y: [T; 3],
    value: spec_fn(T) -> real,
) -> (r: (DualQuaternion<T>, DualQuaternion<T>))
    requires
        crate::skinning::dual_laws::moves_exactly(ops, value),
        value(zero) == 0 as real,
        value(one) == 1 as real,
        weights.len() == a.len(),
        a.len() > 0,
        same_matrices(value, a, b),
        mixture_turns(ops, zero, one, weights, a, value),
        crate::skinning::is_dual_skinned(ops, zero, one, weights, a, p, x),
        crate::skinning::is_dual_skinned(ops, zero, one, weights, b, q, y),
    ensures
        alike(value, r.0, r.1),
        crate::rotation_laws::norm(crate::rotation_laws::quaternion(value, r.0.0@)) != 0 as real,
        crate::skinning::dual::is_moved(ops, zero, r.0, p@, x@),
        crate::skinning::dual::is_moved(ops, zero, r.1, q@, y@),
{
    let (raw, aligned, mean) = choose|
        raw: Seq<DualQuaternion<T>>,
        aligned: Seq<DualQuaternion<T>>,
        mean: DualQuaternion<T>,
    |
        {
            &&& #[trigger] crate::skinning::are_duals(ops, one, a, raw)
            &&& #[trigger] crate::skinning::are_aligned(ops, raw, aligned)
            &&& #[trigger] crate::skinning::is_mean(ops, zero, weights, aligned, mean)
            &&& crate::skinning::dual::is_moved(ops, zero, mean, p@, x@)
        };
    let (raw2, aligned2, mean2) = choose|
        raw: Seq<DualQuaternion<T>>,
        aligned: Seq<DualQuaternion<T>>,
        mean: DualQuaternion<T>,
    |
        {
            &&& #[trigger] crate::skinning::are_duals(ops, one, b, raw)
            &&& #[trigger] crate::skinning::are_aligned(ops, raw, aligned)
            &&& #[trigger] crate::skinning::is_mean(ops, zero, weights, aligned, mean)
            &&& crate::skinning::dual::is_moved(ops, zero, mean, q@, y@)
        };
    assert forall|i: int| 0 <= i < raw.len() implies alike(value, #[trigger] raw[i], raw2[i]) by {
        let h = crate::rotation::rows4(a[i]);
        let k = crate::rotation::rows4(b[i]);
        assert forall|r: int, c: int| 0 <= r < 3 && 0 <= c < 4 implies value(#[trigger] h[r][c])
            == value(k[r][c]) by {
            assert(r == 0 || r == 1 || r == 2);
            assert(value(a[i]@[r]@[c]) == value(b[i]@[r]@[c]));
        }
        assert(crate::skinning::dual::is_dual(ops, one, k, raw2[i]));
        lemma_same_dual(ops, one, h, k, raw[i], raw2[i], value);
    }
    assert forall|i: int| 0 <= i < aligned.len() implies alike(
        value,
        #[trigger] aligned[i],
        aligned2[i],
    ) by {
        assert(alike(value, raw[0], raw2[0]));
        assert(alike(value, raw[i], raw2[i]));
        assert(crate::skinning::is_aligned(ops, raw2[0], raw2[i], aligned2[i]));
        lemma_same_aligned(
            ops,
            raw[0],
            raw[i],
            aligned[i],
            raw2[0],
            raw2[i],
            aligned2[i],
            value,
        );
    }
    lemma_same_mean(ops, zero, weights, aligned, aligned2, mean, mean2, value);
    (mean, mean2)
}

/// In exact arithmetic dual quaternions take a point to the same place where the
/// transforms stand for the same turns and shifts, as far as their mixture turns.
pub proof fn law_same_matrices_same_place<T, O: MotionOps<T>>(
    ops: &O,
    zero: T,
    one: T,
    weights: Seq<T>,
    a: Seq<[[T; 4]; 4]>,
    b: Seq<[[T; 4]; 4]>,
    p: [T; 3],
    x: [T; 3],
    y: [T; 3],
    value: spec_fn(T) -> real,
)
    requires
        crate::skinning::dual_laws::moves_exactly(ops, value),
        value(zero) == 0 as real,
        value(one) == 1 as real,
        weights.len() == a.len(),
        a.len() > 0,
        same_matrices(value, a, b),
        mixture_turns(ops, zero, one, weights, a, value),
        crate::skinning::is_dual_skinned(ops, zero, one, weights, a, p, x),
        crate::skinning::is_dual_skinned(ops, zero, one, weights, b, p, y),
    ensures
        value(x@[0]) == value(y@[0]),
        value(x@[1]) == value(y@[1]),
        value(x@[2]) == value(y@[2]),
{
    let (f, g) = lemma_same_motion(ops, zero, one, weights, a, b, p, x, p, y, value);
    let n = lemma_moved(ops, zero, f, p@, x@, value);
    let m = lemma_moved(ops, zero, g, p@, y@, value);
    crate::skinning::rigid_laws::lemma_same_root(n, m);
}

/// In exact arithmetic two vertices with the same weights and transforms keep
/// their distance under dual quaternions, as far as the mixture of the transforms
/// turns.
pub proof fn law_skinning_is_rigid<T, O: MotionOps<T>>(
    ops: &O,
    zero: T,
    one: T,
    weights: Seq<T>,
    ms: Seq<[[T; 4]; 4]>,
    p: [T; 3],
    x: [T; 3],
    q: [T; 3],
    y: [T; 3],
    value: spec_fn(T) -> real,
)
    requires
        crate::skinning::dual_laws::moves_exactly(ops, value),
        value(zero) == 0 as real,
        value(one) == 1 as real,
        weights.len() == ms.len(),
        ms.len() > 0,
        mixture_turns(ops, zero, one, weights, ms, value),
        crate::skinning::is_dual_skinned(ops, zero, one, weights, ms, p, x),
        crate::skinning::is_dual_skinned(ops, zero, one, weights, ms, q, y),
    ensures
        crate::skinning::rigid_laws::square_distance(value, x@, y@)
            == crate::skinning::rigid_laws::square_distance(value, p@, q@),
{
    let (f, g) = lemma_same_motion(ops, zero, one, weights, ms, ms, p, x, q, y, value);
    crate::skinning::rigid_laws::law_motion_is_rigid(ops, zero, f, g, p@, q@, x@, y@, value);
}

proof fn lemma_shared_sum<T>(
    value: spec_fn(T) -> real,
    weights: Seq<T>,
    terms: Seq<(T, T)>,
    x: real,
)
    requires
        terms.len() == weights.len(),
        forall|i: int|
            0 <= i < terms.len() ==> (#[trigger] terms[i]).0 == weights[i] && value(terms[i].1)
                == x,
    ensures
        crate::utils::blend::exact_sum(value, terms) == crate::utils::shares::exact_total(
            value,
            weights,
        ) * x,
    decreases terms.len(),
{
    let t = crate::utils::shares::exact_total(value, weights);
    if terms.len() > 0 {
        let (fewer, before) = (terms.drop_last(), weights.drop_last());
        assert forall|i: int| 0 <= i < fewer.len() implies (#[trigger] fewer[i]).0 == before[i]
            && value(fewer[i].1) == x by {
            assert(fewer[i] == terms[i]);
        }
        lemma_shared_sum(value, before, fewer, x);
        let last = terms.last();
        assert(terms[terms.len() - 1] == last);
        let f = crate::utils::shares::exact_total(value, before);
        let w = value(weights.last());
        assert(f * x + w * x == (f + w) * x) by (nonlinear_arith);
    } else {
        assert(t * x == 0 as real) by (nonlinear_arith)
            requires
                t == 0 as real,
        ;
    }
}

/// The mean of motions of the same numbers, with weights that sum to 1, has the
/// same numbers.
proof fn lemma_shared_mean<T, O: MotionOps<T>>(
    ops: &O,
    zero: T,
    weights: Seq<T>,
    qs: Seq<DualQuaternion<T>>,
    q: DualQuaternion<T>,
    mean: DualQuaternion<T>,
    value: spec_fn(T) -> real,
)
    requires
        crate::scalar::is_exact(ops, value),
        value(zero) == 0 as real,
        weights.len() == qs.len(),
        crate::utils::shares::exact_total(value, weights) == 1 as real,
        forall|i: int| 0 <= i < qs.len() ==> alike(value, #[trigger] qs[i], q),
        crate::skinning::is_mean(ops, zero, weights, qs, mean),
    ensures
        alike(value, mean, q),
{
    assert forall|translation: bool, c: int| 0 <= c < 4 implies value(
        #[trigger] crate::skinning::part(mean, translation)[c],
    ) == value(crate::skinning::part(q, translation)[c]) by {
        let terms = crate::skinning::component_terms(weights, qs, translation, c);
        let x = value(crate::skinning::part(q, translation)[c]);
        assert forall|i: int| 0 <= i < terms.len() implies (#[trigger] terms[i]).0 == weights[i]
            && value(terms[i].1) == x by {
            assert(alike(value, qs[i], q));
            assert(c == 0 || c == 1 || c == 2 || c == 3);
        }
        lemma_shared_sum(value, weights, terms, x);
        crate::utils::blend::law_exact_blend(
            ops,
            zero,
            terms,
            crate::skinning::part(mean, translation)[c],
            value,
        );
        assert((1 as real) * x == x) by (nonlinear_arith);
    }
    assert(value(crate::skinning::part(mean, false)[0]) == value(q.0@[0]));
    assert(value(crate::skinning::part(mean, false)[1]) == value(q.0@[1]));
    assert(value(crate::skinning::part(mean, false)[2]) == value(q.0@[2]));
    assert(value(crate::skinning::part(mean, false)[3]) == value(q.0@[3]));
    assert(value(crate::skinning::part(mean, true)[0]) == value(q.1@[0]));
    assert(value(crate::skinning::part(mean, true)[1]) == value(q.1@[1]));
    assert(value(crate::skinning::part(mean, true)[2]) == value(q.1@[2]));
    assert(value(crate::skinning::part(mean, true)[3]) == value(q.1@[3]));
}

/// A motion of the numbers of the first is not turned over.
proof fn lemma_stays<T, O: MotionOps<T>>(
    ops: &O,
    first: DualQuaternion<T>,
    raw: DualQuaternion<T>,
    q: DualQuaternion<T>,
    value: spec_fn(T) -> real,
)
    requires
        crate::skinning::dual_laws::moves_exactly(ops, value),
        alike(value, raw, first),
        crate::skinning::is_aligned(ops, first, raw, q),
    ensures
        q == raw,
{
    if crate::skinning::dual::is_agreement(ops, raw, first, false) {
        lemma_inner(ops, raw, first, false, value);
        crate::skinning::dual_laws::lemma_square(value(first.0@[0]));
        crate::skinning::dual_laws::lemma_square(value(first.0@[1]));
        crate::skinning::dual_laws::lemma_square(value(first.0@[2]));
        crate::skinning::dual_laws::lemma_square(value(first.0@[3]));
        crate::skinning::dual_laws::lemma_square(value(first.1@[0]));
        crate::skinning::dual_laws::lemma_square(value(first.1@[1]));
        crate::skinning::dual_laws::lemma_square(value(first.1@[2]));
        crate::skinning::dual_laws::lemma_square(value(first.1@[3]));
        assert(false);
    }
}

/// In exact arithmetic a point whose bones all have the same rotation and shift,
/// with weights that sum to 1, goes where these take it under dual quaternions.
pub proof fn law_shared_motion<T, O: MotionOps<T>>(
    ops: &O,
    zero: T,
    one: T,
    weights: Seq<T>,
    ms: Seq<[[T; 4]; 4]>,
    p: [T; 3],
    r: [T; 3],
    value: spec_fn(T) -> real,
)
    requires
        crate::skinning::dual_laws::moves_exactly(ops, value),
        value(zero) == 0 as real,
        value(one) == 1 as real,
        weights.len() == ms.len(),
        ms.len() > 0,
        crate::utils::shares::exact_total(value, weights) == 1 as real,
        same_matrices(value, ms, Seq::new(ms.len(), |i: int| ms[0])),
        crate::unit_quaternion_laws::has_unit_rows(
            crate::unit_quaternion_laws::matrix(
                value,
                crate::rotation::linear_part(crate::rotation::rows4(ms[0])),
            ),
        ),
        crate::unit_quaternion_laws::determinant(
            crate::unit_quaternion_laws::matrix(
                value,
                crate::rotation::linear_part(crate::rotation::rows4(ms[0])),
            ),
        ) == 1 as real,
        crate::skinning::is_dual_skinned(ops, zero, one, weights, ms, p, r),
    ensures
        forall|c: int|
            0 <= c < 3 ==> value(#[trigger] r@[c]) == crate::rotation_laws::inner(
                value,
                crate::rotation::linear_part(crate::rotation::rows4(ms[0]))[c],
                p@,
            ) + value(crate::rotation::translation_part(crate::rotation::rows4(ms[0]))[c]),
{
    let firsts = Seq::new(ms.len(), |i: int| ms[0]);
    let (raw, aligned, mean) = choose|
        raw: Seq<DualQuaternion<T>>,
        aligned: Seq<DualQuaternion<T>>,
        mean: DualQuaternion<T>,
    |
        {
            &&& #[trigger] crate::skinning::are_duals(ops, one, ms, raw)
            &&& #[trigger] crate::skinning::are_aligned(ops, raw, aligned)
            &&& #[trigger] crate::skinning::is_mean(ops, zero, weights, aligned, mean)
            &&& crate::skinning::dual::is_moved(ops, zero, mean, p@, r@)
        };
    let h = crate::rotation::rows4(ms[0]);
    assert(crate::skinning::dual::is_dual(ops, one, h, raw[0]));
    assert forall|i: int| 0 <= i < aligned.len() implies alike(
        value,
        #[trigger] aligned[i],
        raw[0],
    ) by {
        let k = crate::rotation::rows4(ms[i]);
        assert(crate::skinning::dual::is_dual(ops, one, k, raw[i]));
        assert forall|r: int, c: int| 0 <= r < 3 && 0 <= c < 4 implies value(#[trigger] k[r][c])
            == value(h[r][c]) by {
            assert(r == 0 || r == 1 || r == 2);
            assert(value(ms[i]@[r]@[c]) == value(firsts[i]@[r]@[c]));
        }
        lemma_same_dual(ops, one, k, h, raw[i], raw[0], value);
        lemma_stays(ops, raw[0], raw[i], aligned[i], value);
    }
    lemma_shared_mean(ops, zero, weights, aligned, raw[0], mean, value);
    crate::skinning::dual_laws::law_motion_of_transform(
        ops,
        zero,
        one,
        h,
        raw[0],
        mean,
        p@,
        r@,
        value,
    );
}

} // verus!
