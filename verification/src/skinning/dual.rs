//! Rigid motions as pairs of quaternions.
use vstd::prelude::*;

use crate::rotation::{
    quat_action, quat_conjugation, quat_product, rigid_from_homogeneous, rotmat_to_unitquat,
    signed_sum, RotationOps, SignedProduct,
};

verus! {

/// A rigid motion as a pair of quaternions: its rotation and its translation.
pub type DualQuaternion<T> = ([T; 4], [T; 4]);

/// The operations on rigid motions. Nothing is taken for granted of what they
/// return.
pub trait MotionOps<T>: RotationOps<T> {
    fn halved(&self, a: T) -> T;

    fn doubled(&self, a: T) -> T;

    /// The square root.
    fn root(&self, a: T) -> T;

    fn not_negative(&self, a: T) -> bool;
}

pub open spec fn half_of<T, O: MotionOps<T>>(ops: &O, a: T, r: T) -> bool {
    call_ensures(O::halved, (ops, a), r)
}

pub open spec fn double_of<T, O: MotionOps<T>>(ops: &O, a: T, r: T) -> bool {
    call_ensures(O::doubled, (ops, a), r)
}

pub open spec fn root_of<T, O: MotionOps<T>>(ops: &O, a: T, r: T) -> bool {
    call_ensures(O::root, (ops, a), r)
}

pub open spec fn says_not_negative<T, O: MotionOps<T>>(ops: &O, a: T, r: bool) -> bool {
    call_ensures(O::not_negative, (ops, a), r)
}

/// `half` is half of the vector `t`.
pub open spec fn are_halves<T, O: MotionOps<T>>(ops: &O, t: Seq<T>, half: Seq<T>) -> bool {
    &&& half.len() == 3
    &&& forall|c: int| 0 <= c < 3 ==> half_of(ops, t[c], #[trigger] half[c])
}

/// `q` is the motion of a homogeneous matrix: its rotation, and the product of
/// half its translation, with a scalar part of one, and the rotation.
pub open spec fn is_dual<T, O: MotionOps<T>>(
    ops: &O,
    one: T,
    h: Seq<Seq<T>>,
    q: DualQuaternion<T>,
) -> bool {
    &&& crate::rotation::is_unitquat(ops, crate::rotation::linear_part(h), one, q.0@)
    &&& exists|half: Seq<T>| #[trigger]
        are_halves(ops, crate::rotation::translation_part(h), half)
            && crate::rotation::is_product(ops, half.push(one), q.0@, q.1@)
}

/// The motion of a homogeneous matrix.
pub fn homogeneous_to_dual_quaternion<T: Copy, O: MotionOps<T>>(
    m: &[[T; 4]; 4],
    one: T,
    ops: &O,
) -> (q: DualQuaternion<T>)
    ensures
        is_dual(ops, one, crate::rotation::rows4(*m), q),
{
    let (linear, t) = rigid_from_homogeneous(m);
    let rotation = rotmat_to_unitquat(&linear, one, ops);
    let half = [ops.halved(t[0]), ops.halved(t[1]), ops.halved(t[2]), one];
    let translation = quat_product(&half, &rotation, ops);
    proof {
        assert(crate::rotation::rows3(linear) =~~= crate::rotation::linear_part(
            crate::rotation::rows4(*m),
        ));
        let way = half@.take(3);
        assert(way.push(one) =~= half@);
        assert(are_halves(
            ops,
            crate::rotation::translation_part(crate::rotation::rows4(*m)),
            way,
        ));
    }
    (rotation, translation)
}

/// The products that the inner product of two quaternions sums.
pub open spec fn four_terms<T>(a: Seq<T>, b: Seq<T>) -> Seq<SignedProduct<T>> {
    seq![
        crate::rotation::added(a[0], b[0]),
        crate::rotation::added(a[1], b[1]),
        crate::rotation::added(a[2], b[2]),
        crate::rotation::added(a[3], b[3]),
    ]
}

fn inner_four<T: Copy, O: MotionOps<T>>(ops: &O, a: &[T; 4], b: &[T; 4]) -> (r: T)
    ensures
        crate::rotation::is_signed_sum(ops, four_terms(a@, b@), r),
{
    let terms: Vec<SignedProduct<T>> = vec![
        SignedProduct { added: true, left: a[0], right: b[0] },
        SignedProduct { added: true, left: a[1], right: b[1] },
        SignedProduct { added: true, left: a[2], right: b[2] },
        SignedProduct { added: true, left: a[3], right: b[3] },
    ];
    assert(terms@ =~= four_terms(a@, b@));
    signed_sum(ops, &terms)
}

/// `r` is the inner product of two motions.
pub open spec fn is_dual_inner<T, O: MotionOps<T>>(
    ops: &O,
    a: DualQuaternion<T>,
    b: DualQuaternion<T>,
    r: T,
) -> bool {
    exists|x: T, y: T|
        {
            &&& #[trigger] crate::rotation::is_signed_sum(ops, four_terms(a.0@, b.0@), x)
            &&& #[trigger] crate::rotation::is_signed_sum(ops, four_terms(a.1@, b.1@), y)
            &&& crate::scalar::sum_of(ops, x, y, r)
        }
}

/// Whether the inner product of two motions is not negative.
pub open spec fn is_agreement<T, O: MotionOps<T>>(
    ops: &O,
    a: DualQuaternion<T>,
    b: DualQuaternion<T>,
    r: bool,
) -> bool {
    exists|d: T| #[trigger] is_dual_inner(ops, a, b, d) && says_not_negative(ops, d, r)
}

pub(crate) fn agrees<T: Copy, O: MotionOps<T>>(
    a: &DualQuaternion<T>,
    b: &DualQuaternion<T>,
    ops: &O,
) -> (r: bool)
    ensures
        is_agreement(ops, *a, *b, r),
{
    let x = inner_four(ops, &a.0, &b.0);
    let y = inner_four(ops, &a.1, &b.1);
    let d = ops.plus(x, y);
    assert(is_dual_inner(ops, *a, *b, d));
    ops.not_negative(d)
}

/// `r` is the quaternion with all signs turned.
pub open spec fn is_opposite_quat<T, O: MotionOps<T>>(ops: &O, q: Seq<T>, r: Seq<T>) -> bool {
    &&& r.len() == 4
    &&& forall|c: int|
        0 <= c < 4 ==> crate::scalar::negative_of(ops, q[c], #[trigger] r[c])
}

/// `r` is the motion with all signs turned, which is the same motion.
pub open spec fn is_opposite<T, O: MotionOps<T>>(
    ops: &O,
    q: DualQuaternion<T>,
    r: DualQuaternion<T>,
) -> bool {
    is_opposite_quat(ops, q.0@, r.0@) && is_opposite_quat(ops, q.1@, r.1@)
}

fn opposite_quat<T: Copy, O: MotionOps<T>>(q: &[T; 4], ops: &O) -> (r: [T; 4])
    ensures
        is_opposite_quat(ops, q@, r@),
{
    [ops.negative(q[0]), ops.negative(q[1]), ops.negative(q[2]), ops.negative(q[3])]
}

pub(crate) fn opposite<T: Copy, O: MotionOps<T>>(q: &DualQuaternion<T>, ops: &O) -> (r:
    DualQuaternion<T>)
    ensures
        is_opposite(ops, *q, r),
{
    (opposite_quat(&q.0, ops), opposite_quat(&q.1, ops))
}

/// `r` is the quaternion over `norm`.
pub open spec fn is_scaled_quat<T, O: MotionOps<T>>(
    ops: &O,
    norm: T,
    q: Seq<T>,
    r: Seq<T>,
) -> bool {
    &&& r.len() == 4
    &&& forall|c: int| 0 <= c < 4 ==> crate::scalar::quotient_of(ops, q[c], norm, #[trigger] r[c])
}

/// `r` is the motion over the length of its rotation.
pub open spec fn is_unit<T, O: MotionOps<T>>(
    ops: &O,
    q: DualQuaternion<T>,
    r: DualQuaternion<T>,
) -> bool {
    exists|square: T, norm: T|
        {
            &&& #[trigger] crate::rotation::is_signed_sum(ops, four_terms(q.0@, q.0@), square)
            &&& #[trigger] root_of(ops, square, norm)
            &&& is_scaled_quat(ops, norm, q.0@, r.0@)
            &&& is_scaled_quat(ops, norm, q.1@, r.1@)
        }
}

fn scaled_quat<T: Copy, O: MotionOps<T>>(q: &[T; 4], norm: T, ops: &O) -> (r: [T; 4])
    ensures
        is_scaled_quat(ops, norm, q@, r@),
{
    [
        ops.quotient(q[0], norm),
        ops.quotient(q[1], norm),
        ops.quotient(q[2], norm),
        ops.quotient(q[3], norm),
    ]
}

fn unit<T: Copy, O: MotionOps<T>>(q: &DualQuaternion<T>, ops: &O) -> (r: DualQuaternion<T>)
    ensures
        is_unit(ops, *q, r),
{
    let square = inner_four(ops, &q.0, &q.0);
    let norm = ops.root(square);
    let r = (scaled_quat(&q.0, norm, ops), scaled_quat(&q.1, norm, ops));
    assert(root_of(ops, square, norm));
    r
}

/// `r` is `turned` with twice `way` added.
pub open spec fn is_landing<T, O: MotionOps<T>>(ops: &O, turned: T, way: T, r: T) -> bool {
    exists|d: T| #[trigger] double_of(ops, way, d) && crate::scalar::sum_of(ops, turned, d, r)
}

fn landing<T: Copy, O: MotionOps<T>>(turned: T, way: T, ops: &O) -> (r: T)
    ensures
        is_landing(ops, turned, way, r),
{
    let d = ops.doubled(way);
    assert(double_of(ops, way, d));
    ops.plus(turned, d)
}

/// `r` is the point `p` under the motion, scaled to unit length: turned by its
/// rotation, and moved by twice the product of its translation and the
/// conjugate of the rotation.
pub open spec fn is_moved<T, O: MotionOps<T>>(
    ops: &O,
    zero: T,
    q: DualQuaternion<T>,
    p: Seq<T>,
    r: Seq<T>,
) -> bool {
    exists|u: DualQuaternion<T>, conjugate: Seq<T>, way: Seq<T>, turned: Seq<T>|
        {
            &&& #[trigger] is_unit(ops, q, u)
            &&& #[trigger] crate::rotation::is_conjugate(ops, u.0@, conjugate)
            &&& #[trigger] crate::rotation::is_product(ops, u.1@, conjugate, way)
            &&& #[trigger] crate::rotation::is_action(ops, zero, u.0@, p, turned)
            &&& r.len() == 3
            &&& forall|c: int|
                0 <= c < 3 ==> is_landing(ops, turned[c], way[c], #[trigger] r[c])
        }
}

/// The point `p` under a motion.
pub fn moved_point<T: Copy, O: MotionOps<T>>(
    q: &DualQuaternion<T>,
    p: &[T; 3],
    zero: T,
    ops: &O,
) -> (r: [T; 3])
    ensures
        is_moved(ops, zero, *q, p@, r@),
{
    let u = unit(q, ops);
    let conjugate = quat_conjugation(&u.0, ops);
    let way = quat_product(&u.1, &conjugate, ops);
    let turned = quat_action(&u.0, p, zero, ops);
    let r = [
        landing(turned[0], way[0], ops),
        landing(turned[1], way[1], ops),
        landing(turned[2], way[2], ops),
    ];
    assert(is_unit(ops, *q, u));
    assert(crate::rotation::is_conjugate(ops, u.0@, conjugate@));
    assert(crate::rotation::is_product(ops, u.1@, conjugate@, way@));
    assert(crate::rotation::is_action(ops, zero, u.0@, p@, turned@));
    r
}

} // verus!
