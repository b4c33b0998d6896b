//! A blended motion is rigid in exact arithmetic.
use vstd::prelude::*;

use crate::rotation_laws::Quaternion;
use crate::skinning::dual::{DualQuaternion, MotionOps};

verus! {

/// The quaternion `a` less `b`.
pub open spec fn less(a: Quaternion, b: Quaternion) -> Quaternion {
    Quaternion { x: a.x - b.x, y: a.y - b.y, z: a.z - b.z, w: a.w - b.w }
}

/// The square of the distance of two points.
pub open spec fn square_distance<T>(value: spec_fn(T) -> real, a: Seq<T>, b: Seq<T>) -> real {
    (value(a[0]) - value(b[0])) * (value(a[0]) - value(b[0])) + (value(a[1]) - value(b[1])) * (value(
        a[1],
    ) - value(b[1])) + (value(a[2]) - value(b[2])) * (value(a[2]) - value(b[2]))
}

proof fn lemma_spread(a: real, b: real, c: real)
    ensures
        a * (b - c) == a * b - a * c,
        (b - c) * a == b * a - c * a,
{
    assert(a * (b - c) == a * b - a * c) by (nonlinear_arith);
    assert((b - c) * a == b * a - c * a) by (nonlinear_arith);
}

proof fn lemma_component(s: real, a: Quaternion, b: Quaternion)
    ensures
        s * (a.x - b.x) == s * a.x - s * b.x,
        s * (a.y - b.y) == s * a.y - s * b.y,
        s * (a.z - b.z) == s * a.z - s * b.z,
        s * (a.w - b.w) == s * a.w - s * b.w,
        (a.x - b.x) * s == a.x * s - b.x * s,
        (a.y - b.y) * s == a.y * s - b.y * s,
        (a.z - b.z) * s == a.z * s - b.z * s,
        (a.w - b.w) * s == a.w * s - b.w * s,
{
    lemma_spread(s, a.x, b.x);
    lemma_spread(s, a.y, b.y);
    lemma_spread(s, a.z, b.z);
    lemma_spread(s, a.w, b.w);
}

proof fn lemma_product_less(q: Quaternion, a: Quaternion, b: Quaternion)
    ensures
        crate::rotation_laws::product(q, less(a, b)) == less(
            crate::rotation_laws::product(q, a),
            crate::rotation_laws::product(q, b),
        ),
        crate::rotation_laws::product(less(a, b), q) == less(
            crate::rotation_laws::product(a, q),
            crate::rotation_laws::product(b, q),
        ),
{
    lemma_component(q.x, a, b);
    lemma_component(q.y, a, b);
    lemma_component(q.z, a, b);
    lemma_component(q.w, a, b);
}

proof fn lemma_negated_square(a: real)
    ensures
        (-a) * (-a) == a * a,
{
    assert((-a) * (-a) == a * a) by (nonlinear_arith);
}

proof fn lemma_times_one(a: real)
    ensures
        (1 as real) * a == a,
        a * (1 as real) == a,
{
    assert((1 as real) * a == a && a * (1 as real) == a) by (nonlinear_arith);
}

/// Under a quaternion of length one two vectors keep their distance.
proof fn lemma_turned_apart(q: Quaternion, a: Quaternion, b: Quaternion)
    requires
        crate::rotation_laws::norm(q) == 1 as real,
    ensures
        crate::rotation_laws::norm(
            less(crate::rotation_laws::sandwich(q, a), crate::rotation_laws::sandwich(q, b)),
        ) == crate::rotation_laws::norm(less(a, b)),
{
    let c = crate::rotation_laws::conjugate(q);
    let left_a = crate::rotation_laws::product(q, a);
    let left_b = crate::rotation_laws::product(q, b);
    let d = less(a, b);
    lemma_product_less(q, a, b);
    lemma_product_less(c, left_a, left_b);
    crate::rotation_laws::law_norm_product(q, d);
    crate::rotation_laws::law_norm_product(crate::rotation_laws::product(q, d), c);
    lemma_negated_square(q.x);
    lemma_negated_square(q.y);
    lemma_negated_square(q.z);
    assert(crate::rotation_laws::norm(c) == 1 as real);
    lemma_times_one(crate::rotation_laws::norm(d));
    lemma_times_one(crate::rotation_laws::norm(crate::rotation_laws::product(q, d)));
}

pub proof fn lemma_same_root(a: real, b: real)
    requires
        a >= 0 as real,
        b >= 0 as real,
        a * a == b * b,
    ensures
        a == b,
{
    if a < b {
        assert(a * a < b * b) by (nonlinear_arith)
            requires
                0 as real <= a < b,
        ;
    }
    if b < a {
        assert(b * b < a * a) by (nonlinear_arith)
            requires
                0 as real <= b < a,
        ;
    }
}

proof fn lemma_square_over(a: real, n: real)
    requires
        n != 0 as real,
    ensures
        ((a / n) * (a / n)) * (n * n) == a * a,
{
    let u = a / n;
    assert(u * n == a) by (nonlinear_arith)
        requires
            u == a / n,
            n != 0 as real,
    ;
    assert((u * u) * (n * n) == (u * n) * (u * n)) by (nonlinear_arith);
}

proof fn lemma_whole(s: real, n: real)
    requires
        n > 0 as real,
        s * n == n,
    ensures
        s == 1 as real,
{
    assert(s == 1 as real) by (nonlinear_arith)
        requires
            n > 0 as real,
            s * n == n,
    ;
}

proof fn lemma_gathered(a: real, b: real, c: real, d: real, n: real)
    ensures
        (a + b + c + d) * n == a * n + b * n + c * n + d * n,
{
    assert((a + b + c + d) * n == a * n + b * n + c * n + d * n) by (nonlinear_arith);
}

/// The length of the rotation of a motion.
pub open spec fn is_length(q: Quaternion, n: real) -> bool {
    &&& n > 0 as real
    &&& n * n == crate::rotation_laws::norm(q)
}

/// The unit of a motion is the motion over the length of its rotation, and has
/// the length one.
pub proof fn lemma_unit_over<T, O: MotionOps<T>>(
    ops: &O,
    q: DualQuaternion<T>,
    u: DualQuaternion<T>,
    value: spec_fn(T) -> real,
) -> (n: real)
    requires
        crate::skinning::dual_laws::moves_exactly(ops, value),
        crate::rotation_laws::norm(crate::rotation_laws::quaternion(value, q.0@)) > 0 as real,
        crate::skinning::dual::is_unit(ops, q, u),
    ensures
        is_length(crate::rotation_laws::quaternion(value, q.0@), n),
        forall|c: int| 0 <= c < 4 ==> value(#[trigger] u.0@[c]) == value(q.0@[c]) / n,
        forall|c: int| 0 <= c < 4 ==> value(#[trigger] u.1@[c]) == value(q.1@[c]) / n,
        crate::rotation_laws::norm(crate::rotation_laws::quaternion(value, u.0@)) == 1 as real,
{
    let (square, root) = choose|square: T, root: T|
        {
            &&& #[trigger] crate::rotation::is_signed_sum(
                ops,
                crate::skinning::dual::four_terms(q.0@, q.0@),
                square,
            )
            &&& #[trigger] crate::skinning::dual::root_of(ops, square, root)
            &&& crate::skinning::dual::is_scaled_quat(ops, root, q.0@, u.0@)
            &&& crate::skinning::dual::is_scaled_quat(ops, root, q.1@, u.1@)
        };
    crate::skinning::dual_laws::lemma_four(ops, q.0@, q.0@, square, value);
    let n = value(root);
    let all = crate::rotation_laws::norm(crate::rotation_laws::quaternion(value, q.0@));
    assert(n * n == all);
    if n == 0 as real {
        assert(n * n == 0 as real) by (nonlinear_arith)
            requires
                n == 0 as real,
        ;
    }
    assert(value(u.0@[0]) == value(q.0@[0]) / n && value(u.0@[1]) == value(q.0@[1]) / n);
    assert(value(u.0@[2]) == value(q.0@[2]) / n && value(u.0@[3]) == value(q.0@[3]) / n);
    let v = crate::rotation_laws::quaternion(value, u.0@);
    lemma_square_over(value(q.0@[0]), n);
    lemma_square_over(value(q.0@[1]), n);
    lemma_square_over(value(q.0@[2]), n);
    lemma_square_over(value(q.0@[3]), n);
    lemma_gathered(v.x * v.x, v.y * v.y, v.z * v.z, v.w * v.w, n * n);
    lemma_whole(crate::rotation_laws::norm(v), n * n);
    n
}

/// In exact arithmetic a motion whose rotation is not zero is rigid: two points
/// that it moves keep their distance. `q` and `s` have the same values.
pub proof fn law_motion_is_rigid<T, O: MotionOps<T>>(
    ops: &O,
    zero: T,
    q: DualQuaternion<T>,
    s: DualQuaternion<T>,
    a: Seq<T>,
    b: Seq<T>,
    moved_a: Seq<T>,
    moved_b: Seq<T>,
    value: spec_fn(T) -> real,
)
    requires
        crate::skinning::dual_laws::moves_exactly(ops, value),
        value(zero) == 0 as real,
        crate::rotation_laws::quaternion(value, s.0@) == crate::rotation_laws::quaternion(
            value,
            q.0@,
        ),
        crate::rotation_laws::quaternion(value, s.1@) == crate::rotation_laws::quaternion(
            value,
            q.1@,
        ),
        crate::rotation_laws::norm(crate::rotation_laws::quaternion(value, q.0@)) != 0 as real,
        a.len() == 3,
        b.len() == 3,
        crate::skinning::dual::is_moved(ops, zero, q, a, moved_a),
        crate::skinning::dual::is_moved(ops, zero, s, b, moved_b),
    ensures
        square_distance(value, moved_a, moved_b) == square_distance(value, a, b),
{
    let turn = crate::rotation_laws::quaternion(value, q.0@);
    crate::skinning::dual_laws::lemma_square(turn.x);
    crate::skinning::dual_laws::lemma_square(turn.y);
    crate::skinning::dual_laws::lemma_square(turn.z);
    crate::skinning::dual_laws::lemma_square(turn.w);
    let (u, u_back, u_way, u_turned) = choose|
        u: DualQuaternion<T>,
        conjugate: Seq<T>,
        way: Seq<T>,
        turned: Seq<T>,
    |
        {
            &&& #[trigger] crate::skinning::dual::is_unit(ops, q, u)
            &&& #[trigger] crate::rotation::is_conjugate(ops, u.0@, conjugate)
            &&& #[trigger] crate::rotation::is_product(ops, u.1@, conjugate, way)
            &&& #[trigger] crate::rotation::is_action(ops, zero, u.0@, a, turned)
            &&& moved_a.len() == 3
            &&& forall|c: int|
                0 <= c < 3 ==> crate::skinning::dual::is_landing(
                    ops,
                    turned[c],
                    way[c],
                    #[trigger] moved_a[c],
                )
        };
    let (v, v_back, v_way, v_turned) = choose|
        u: DualQuaternion<T>,
        conjugate: Seq<T>,
        way: Seq<T>,
        turned: Seq<T>,
    |
        {
            &&& #[trigger] crate::skinning::dual::is_unit(ops, s, u)
            &&& #[trigger] crate::rotation::is_conjugate(ops, u.0@, conjugate)
            &&& #[trigger] crate::rotation::is_product(ops, u.1@, conjugate, way)
            &&& #[trigger] crate::rotation::is_action(ops, zero, u.0@, b, turned)
            &&& moved_b.len() == 3
            &&& forall|c: int|
                0 <= c < 3 ==> crate::skinning::dual::is_landing(
                    ops,
                    turned[c],
                    way[c],
                    #[trigger] moved_b[c],
                )
        };
    let n = lemma_unit_over(ops, q, u, value);
    let m = lemma_unit_over(ops, s, v, value);
    lemma_same_root(n, m);
    let unit = crate::rotation_laws::quaternion(value, u.0@);
    assert(value(u.0@[0]) == value(v.0@[0]) && value(u.0@[1]) == value(v.0@[1]));
    assert(value(u.0@[2]) == value(v.0@[2]) && value(u.0@[3]) == value(v.0@[3]));
    assert(value(u.1@[0]) == value(v.1@[0]) && value(u.1@[1]) == value(v.1@[1]));
    assert(value(u.1@[2]) == value(v.1@[2]) && value(u.1@[3]) == value(v.1@[3]));
    assert(crate::rotation_laws::quaternion(value, v.0@) == unit);
    let back = crate::rotation_laws::conjugate(unit);
    assert(crate::rotation_laws::quaternion(value, u_back) == back);
    assert(crate::rotation_laws::quaternion(value, v_back) == back);
    crate::rotation_laws::law_exact_product(ops, u.1@, u_back, u_way, value);
    crate::rotation_laws::law_exact_product(ops, v.1@, v_back, v_way, value);
    assert(crate::rotation_laws::quaternion(value, u_way) == crate::rotation_laws::quaternion(
        value,
        v_way,
    ));
    crate::rotation_laws::law_exact_action(ops, zero, u.0@, a, u_turned, value);
    crate::rotation_laws::law_exact_action(ops, zero, v.0@, b, v_turned, value);
    assert forall|c: int| 0 <= c < 3 implies value(#[trigger] moved_a[c]) - value(moved_b[c])
        == value(u_turned[c]) - value(v_turned[c]) by {
        assert(crate::skinning::dual::is_landing(ops, u_turned[c], u_way[c], moved_a[c]));
        assert(crate::skinning::dual::is_landing(ops, v_turned[c], v_way[c], moved_b[c]));
        assert(c == 0 || c == 1 || c == 2);
    }
    let from_a = crate::rotation_laws::quaternion(value, a.push(zero));
    let from_b = crate::rotation_laws::quaternion(value, b.push(zero));
    lemma_turned_apart(unit, from_a, from_b);
    let to = less(
        crate::rotation_laws::sandwich(unit, from_a),
        crate::rotation_laws::sandwich(unit, from_b),
    );
    assert(value(moved_a[0]) - value(moved_b[0]) == to.x);
    assert(value(moved_a[1]) - value(moved_b[1]) == to.y);
    assert(value(moved_a[2]) - value(moved_b[2]) == to.z);
    assert(to.w == 0 as real);
    let from = less(from_a, from_b);
    assert(from.w == 0 as real);
    assert((0 as real) * (0 as real) == 0 as real) by (nonlinear_arith);
}

} // verus!
