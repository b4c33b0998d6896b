//! Quaternions, rotation matrices and rigid transforms. A quaternion has its
//! vector part first and its scalar part last.
use vstd::prelude::*;

use crate::scalar::{Arithmetic, Bounds, Division, Lengths, Signs};

verus! {

/// A product and whether it is added.
pub struct SignedProduct<T> {
    pub added: bool,
    pub left: T,
    pub right: T,
}

/// `r` is `before` with the product added or subtracted.
pub open spec fn is_step<T, O: Arithmetic<T>>(
    ops: &O,
    before: T,
    term: SignedProduct<T>,
    r: T,
) -> bool {
    exists|p: T| #[trigger]
        crate::scalar::product_of(ops, term.left, term.right, p) && if term.added {
            crate::scalar::sum_of(ops, before, p, r)
        } else {
            crate::scalar::difference_of(ops, before, p, r)
        }
}

/// `r` is the first product with the others added or subtracted in turn.
pub open spec fn is_signed_sum<T, O: Arithmetic<T>>(
    ops: &O,
    terms: Seq<SignedProduct<T>>,
    r: T,
) -> bool
    decreases terms.len(),
{
    if terms.len() <= 1 {
        crate::scalar::product_of(ops, terms[0].left, terms[0].right, r)
    } else {
        exists|before: T|
            is_signed_sum(ops, terms.drop_last(), before) && #[trigger] is_step(
                ops,
                before,
                terms.last(),
                r,
            )
    }
}

pub(crate) fn signed_sum<T: Copy, O: Arithmetic<T>>(ops: &O, terms: &Vec<SignedProduct<T>>) -> (r: T)
    requires
        terms@.len() > 0,
    ensures
        is_signed_sum(ops, terms@, r),
{
    let mut r = ops.times(terms[0].left, terms[0].right);
    assert(is_signed_sum(ops, terms@.take(1), r));
    for i in 1..terms.len()
        invariant
            terms@.len() > 0,
            is_signed_sum(ops, terms@.take(i as int), r),
    {
        let ghost before = r;
        let p = ops.times(terms[i].left, terms[i].right);
        r = if terms[i].added {
            ops.plus(r, p)
        } else {
            ops.minus(r, p)
        };
        proof {
            let next = terms@.take(i + 1);
            assert(next.drop_last() =~= terms@.take(i as int));
            assert(next.last() == terms@[i as int]);
            assert(crate::scalar::product_of(ops, next.last().left, next.last().right, p));
            assert(is_step(ops, before, next.last(), r));
        }
    }
    assert(terms@.take(terms@.len() as int) =~= terms@);
    r
}

pub open spec fn added<T>(left: T, right: T) -> SignedProduct<T> {
    SignedProduct { added: true, left, right }
}

pub open spec fn taken<T>(left: T, right: T) -> SignedProduct<T> {
    SignedProduct { added: false, left, right }
}

pub(crate) fn term<T: Copy>(added: bool, left: T, right: T) -> (r: SignedProduct<T>)
    ensures
        r == (SignedProduct { added, left, right }),
{
    SignedProduct { added, left, right }
}

/// The products that an inner product sums.
pub open spec fn inner_terms<T>(a: Seq<T>, b: Seq<T>) -> Seq<SignedProduct<T>> {
    seq![added(a[0], b[0]), added(a[1], b[1]), added(a[2], b[2])]
}

/// `r` is the inner product of `a` and `b`.
pub open spec fn is_inner<T, O: Arithmetic<T>>(ops: &O, a: Seq<T>, b: Seq<T>, r: T) -> bool {
    is_signed_sum(ops, inner_terms(a, b), r)
}

pub(crate) fn inner<T: Copy, O: Arithmetic<T>>(ops: &O, a: &[T; 3], b: &[T; 3]) -> (r: T)
    ensures
        is_inner(ops, a@, b@, r),
{
    let terms: Vec<SignedProduct<T>> = vec![
        term(true, a[0], b[0]),
        term(true, a[1], b[1]),
        term(true, a[2], b[2]),
    ];
    assert(terms@ =~= inner_terms(a@, b@));
    signed_sum(ops, &terms)
}

/// `r` is `a * b - c * d`.
pub open spec fn is_minor<T, O: Arithmetic<T>>(ops: &O, a: T, b: T, c: T, d: T, r: T) -> bool {
    is_signed_sum(ops, seq![added(a, b), taken(c, d)], r)
}

pub(crate) fn minor<T: Copy, O: Arithmetic<T>>(ops: &O, a: T, b: T, c: T, d: T) -> (r: T)
    ensures
        is_minor(ops, a, b, c, d, r),
{
    let terms: Vec<SignedProduct<T>> = vec![term(true, a, b), term(false, c, d)];
    assert(terms@ =~= seq![added(a, b), taken(c, d)]);
    signed_sum(ops, &terms)
}

/// The products that a component of a product of quaternions sums.
pub open spec fn product_terms<T>(p: Seq<T>, q: Seq<T>, c: int) -> Seq<SignedProduct<T>> {
    if c == 0 {
        seq![added(p[3], q[0]), added(p[0], q[3]), added(p[1], q[2]), taken(p[2], q[1])]
    } else if c == 1 {
        seq![added(p[3], q[1]), taken(p[0], q[2]), added(p[1], q[3]), added(p[2], q[0])]
    } else if c == 2 {
        seq![added(p[3], q[2]), added(p[0], q[1]), taken(p[1], q[0]), added(p[2], q[3])]
    } else {
        seq![added(p[3], q[3]), taken(p[0], q[0]), taken(p[1], q[1]), taken(p[2], q[2])]
    }
}

pub open spec fn is_product<T, O: Arithmetic<T>>(ops: &O, p: Seq<T>, q: Seq<T>, r: Seq<T>) -> bool {
    &&& r.len() == 4
    &&& forall|c: int|
        0 <= c < 4 ==> is_signed_sum(ops, product_terms(p, q, c), #[trigger] r[c])
}

/// The product of two quaternions: the rotation by `q`, then that by `p`.
pub fn quat_product<T: Copy, O: Arithmetic<T>>(p: &[T; 4], q: &[T; 4], ops: &O) -> (r: [T; 4])
    ensures
        is_product(ops, p@, q@, r@),
{
    let x: Vec<SignedProduct<T>> = vec![
        term(true, p[3], q[0]),
        term(true, p[0], q[3]),
        term(true, p[1], q[2]),
        term(false, p[2], q[1]),
    ];
    let y: Vec<SignedProduct<T>> = vec![
        term(true, p[3], q[1]),
        term(false, p[0], q[2]),
        term(true, p[1], q[3]),
        term(true, p[2], q[0]),
    ];
    let z: Vec<SignedProduct<T>> = vec![
        term(true, p[3], q[2]),
        term(true, p[0], q[1]),
        term(false, p[1], q[0]),
        term(true, p[2], q[3]),
    ];
    let w: Vec<SignedProduct<T>> = vec![
        term(true, p[3], q[3]),
        term(false, p[0], q[0]),
        term(false, p[1], q[1]),
        term(false, p[2], q[2]),
    ];
    assert(x@ =~= product_terms(p@, q@, 0));
    assert(y@ =~= product_terms(p@, q@, 1));
    assert(z@ =~= product_terms(p@, q@, 2));
    assert(w@ =~= product_terms(p@, q@, 3));
    [signed_sum(ops, &x), signed_sum(ops, &y), signed_sum(ops, &z), signed_sum(ops, &w)]
}

pub open spec fn is_conjugate<T, O: Arithmetic<T>>(ops: &O, q: Seq<T>, r: Seq<T>) -> bool {
    &&& r.len() == 4
    &&& crate::scalar::negative_of(ops, q[0], r[0])
    &&& crate::scalar::negative_of(ops, q[1], r[1])
    &&& crate::scalar::negative_of(ops, q[2], r[2])
    &&& r[3] == q[3]
}

/// The quaternion with its vector part turned. Of a unit quaternion this is
/// the inverse rotation.
pub fn quat_conjugation<T: Copy, O: Arithmetic<T>>(q: &[T; 4], ops: &O) -> (r: [T; 4])
    ensures
        is_conjugate(ops, q@, r@),
{
    [ops.negative(q[0]), ops.negative(q[1]), ops.negative(q[2]), q[3]]
}

/// `r` is the vector part of the product of `q`, `v` and the conjugate of `q`.
pub open spec fn is_action<T, O: Arithmetic<T>>(
    ops: &O,
    zero: T,
    q: Seq<T>,
    v: Seq<T>,
    r: Seq<T>,
) -> bool {
    exists|left: Seq<T>, conjugate: Seq<T>, all: Seq<T>|
        {
            &&& #[trigger] is_product(ops, q, v.push(zero), left)
            &&& #[trigger] is_conjugate(ops, q, conjugate)
            &&& #[trigger] is_product(ops, left, conjugate, all)
            &&& r == all.take(3)
        }
}

/// The vector `v` under the rotation of a unit quaternion.
pub fn quat_action<T: Copy, O: Arithmetic<T>>(q: &[T; 4], v: &[T; 3], zero: T, ops: &O) -> (r: [T;
    3])
    ensures
        is_action(ops, zero, q@, v@, r@),
{
    let pure = [v[0], v[1], v[2], zero];
    assert(pure@ =~= v@.push(zero));
    let left = quat_product(q, &pure, ops);
    let conjugate = quat_conjugation(q, ops);
    let all = quat_product(&left, &conjugate, ops);
    let r = [all[0], all[1], all[2]];
    assert(r@ =~= all@.take(3));
    r
}

/// The entries of a rotation about an axis of the coordinate system, by the
/// cosine and the sine of its angle.
pub open spec fn euler_entries<T>(axis: char, c: T, s: T, neg: T, zero: T, one: T) -> Option<
    Seq<Seq<T>>,
> {
    if axis == 'x' || axis == 'X' {
        Some(seq![seq![one, zero, zero], seq![zero, c, neg], seq![zero, s, c]])
    } else if axis == 'y' || axis == 'Y' {
        Some(seq![seq![c, zero, s], seq![zero, one, zero], seq![neg, zero, c]])
    } else if axis == 'z' || axis == 'Z' {
        Some(seq![seq![c, neg, zero], seq![s, c, zero], seq![zero, zero, one]])
    } else {
        None
    }
}

/// The rows of a matrix.
pub open spec fn rows3<T>(m: [[T; 3]; 3]) -> Seq<Seq<T>> {
    seq![m@[0]@, m@[1]@, m@[2]@]
}

/// The column of a matrix.
pub open spec fn column<T>(m: Seq<Seq<T>>, c: int) -> Seq<T> {
    seq![m[0][c], m[1][c], m[2][c]]
}

/// `r` is the product of two matrices.
pub open spec fn is_matrix_product<T, O: Arithmetic<T>>(
    ops: &O,
    a: Seq<Seq<T>>,
    b: Seq<Seq<T>>,
    r: Seq<Seq<T>>,
) -> bool {
    forall|i: int, j: int|
        0 <= i < 3 && 0 <= j < 3 ==> is_inner(ops, a[i], column(b, j), #[trigger] r[i][j])
}

pub(crate) fn matrix_product<T: Copy, O: Arithmetic<T>>(
    ops: &O,
    a: &[[T; 3]; 3],
    b: &[[T; 3]; 3],
) -> (r: [[T; 3]; 3])
    ensures
        is_matrix_product(
            ops,
            rows3(*a),
            rows3(*b),
            rows3(r),
        ),
{
    let (x, y, z) = (b[0], b[1], b[2]);
    let c0 = [x[0], y[0], z[0]];
    let c1 = [x[1], y[1], z[1]];
    let c2 = [x[2], y[2], z[2]];
    let r = [
        [inner(ops, &a[0], &c0), inner(ops, &a[0], &c1), inner(ops, &a[0], &c2)],
        [inner(ops, &a[1], &c0), inner(ops, &a[1], &c1), inner(ops, &a[1], &c2)],
        [inner(ops, &a[2], &c0), inner(ops, &a[2], &c1), inner(ops, &a[2], &c2)],
    ];
    proof {
        let left = rows3(*a);
        let right = rows3(*b);
        let rows = rows3(r);
        assert(c0@ =~= column(right, 0));
        assert(c1@ =~= column(right, 1));
        assert(c2@ =~= column(right, 2));
        assert forall|i: int, j: int| 0 <= i < 3 && 0 <= j < 3 implies is_inner(
            ops,
            left[i],
            column(right, j),
            #[trigger] rows[i][j],
        ) by {
            assert(i == 0 || i == 1 || i == 2);
            assert(j == 0 || j == 1 || j == 2);
        }
    }
    r
}

/// `r` is the rotation about an axis of the coordinate system by an angle, or
/// nothing where the axis is none of x, y and z.
pub open spec fn is_euler<T, O: AngleOps<T>>(
    ops: &O,
    axis: char,
    radians: T,
    zero: T,
    one: T,
    r: Option<[[T; 3]; 3]>,
) -> bool {
    exists|c: T, s: T, neg: T|
        {
            &&& #[trigger] call_ensures(O::cosine, (ops, radians), c)
            &&& #[trigger] call_ensures(O::sine, (ops, radians), s)
            &&& #[trigger] crate::scalar::negative_of(ops, s, neg)
            &&& match (r, euler_entries(axis, c, s, neg, zero, one)) {
                (Some(m), Some(rows)) => rows3(m) =~~= rows,
                (None, None) => true,
                _ => false,
            }
        }
}

/// The rotation about an axis of the coordinate system by an angle. `degrees`
/// is the number of radians in a degree where the angle is in degrees. `None`
/// where the axis is none of x, y and z.
pub fn euler_to_rotmat<T: Copy, O: AngleOps<T>>(
    axis: char,
    angle: T,
    degrees: Option<T>,
    zero: T,
    one: T,
    ops: &O,
) -> (r: Option<[[T; 3]; 3]>)
    ensures
        match degrees {
            None => is_euler(ops, axis, angle, zero, one, r),
            Some(d) => exists|radians: T| #[trigger]
                crate::scalar::product_of(ops, angle, d, radians) && is_euler(
                    ops,
                    axis,
                    radians,
                    zero,
                    one,
                    r,
                ),
        },
{
    let radians = match degrees {
        None => angle,
        Some(d) => ops.times(angle, d),
    };
    let c = ops.cosine(radians);
    let s = ops.sine(radians);
    let neg = ops.negative(s);
    let r = if axis == 'x' || axis == 'X' {
        Some([[one, zero, zero], [zero, c, neg], [zero, s, c]])
    } else if axis == 'y' || axis == 'Y' {
        Some([[c, zero, s], [zero, one, zero], [neg, zero, c]])
    } else if axis == 'z' || axis == 'Z' {
        Some([[c, neg, zero], [s, c, zero], [zero, zero, one]])
    } else {
        None
    };
    proof {
        assert(call_ensures(O::cosine, (ops, radians), c));
        assert(call_ensures(O::sine, (ops, radians), s));
        assert(crate::scalar::negative_of(ops, s, neg));
        if let Some(d) = degrees {
            assert(crate::scalar::product_of(ops, angle, d, radians));
        }
        if let Some(m) = r {
            assert(rows3(m) =~~= euler_entries(axis, c, s, neg, zero, one)->0);
        }
    }
    r
}

/// The rows of a homogeneous matrix.
pub open spec fn rows4<T>(m: [[T; 4]; 4]) -> Seq<Seq<T>> {
    seq![m@[0]@, m@[1]@, m@[2]@, m@[3]@]
}

/// The entries of a homogeneous matrix with the rotation and the translation.
pub open spec fn homogeneous<T>(linear: Seq<Seq<T>>, translation: Seq<T>, zero: T, one: T) -> Seq<
    Seq<T>,
> {
    seq![
        linear[0].push(translation[0]),
        linear[1].push(translation[1]),
        linear[2].push(translation[2]),
        seq![zero, zero, zero, one],
    ]
}

/// The homogeneous matrix of a rotation and a translation.
pub fn rigid_to_homogeneous<T: Copy>(
    linear: &[[T; 3]; 3],
    translation: &[T; 3],
    zero: T,
    one: T,
) -> (r: [[T; 4]; 4])
    ensures
        rows4(r) =~~= homogeneous(rows3(*linear), translation@, zero, one),
{
    let a = linear[0];
    let b = linear[1];
    let c = linear[2];
    let r = [
        [a[0], a[1], a[2], translation[0]],
        [b[0], b[1], b[2], translation[1]],
        [c[0], c[1], c[2], translation[2]],
        [zero, zero, zero, one],
    ];
    assert(rows4(r) =~~= homogeneous(rows3(*linear), translation@, zero, one));
    r
}

/// The rotation in a homogeneous matrix.
pub open spec fn linear_part<T>(h: Seq<Seq<T>>) -> Seq<Seq<T>> {
    seq![h[0].take(3), h[1].take(3), h[2].take(3)]
}

/// The translation in a homogeneous matrix.
pub open spec fn translation_part<T>(h: Seq<Seq<T>>) -> Seq<T> {
    seq![h[0][3], h[1][3], h[2][3]]
}

/// The rotation and the translation in a homogeneous matrix. Its last row is
/// not read.
pub fn rigid_from_homogeneous<T: Copy>(h: &[[T; 4]; 4]) -> (r: ([[T; 3]; 3], [T; 3]))
    ensures
        rows3(r.0) =~~= linear_part(rows4(*h)),
        r.1@ =~= translation_part(rows4(*h)),
{
    let a = h[0];
    let b = h[1];
    let c = h[2];
    let linear = [[a[0], a[1], a[2]], [b[0], b[1], b[2]], [c[0], c[1], c[2]]];
    let translation = [a[3], b[3], c[3]];
    assert(rows3(linear) =~~= linear_part(rows4(*h)));
    (linear, translation)
}

/// What was packed into a homogeneous matrix comes out of it again.
pub proof fn law_rigid_round_trip<T>(
    linear: Seq<Seq<T>>,
    translation: Seq<T>,
    zero: T,
    one: T,
)
    requires
        linear.len() == 3,
        linear[0].len() == 3,
        linear[1].len() == 3,
        linear[2].len() == 3,
        translation.len() == 3,
    ensures
        linear_part(homogeneous(linear, translation, zero, one)) =~~= linear,
        translation_part(homogeneous(linear, translation, zero, one)) =~= translation,
{
}

/// A homogeneous matrix with the last row of a rigid transform comes back
/// from its parts.
pub proof fn law_homogeneous_round_trip<T>(h: Seq<Seq<T>>, zero: T, one: T)
    requires
        h.len() == 4,
        h[0].len() == 4,
        h[1].len() == 4,
        h[2].len() == 4,
        h[3] == seq![zero, zero, zero, one],
    ensures
        homogeneous(linear_part(h), translation_part(h), zero, one) =~~= h,
{
    let g = homogeneous(linear_part(h), translation_part(h), zero, one);
    assert(g[0] =~= h[0]);
    assert(g[1] =~= h[1]);
    assert(g[2] =~= h[2]);
    assert(g[3] =~= h[3]);
}

/// The products that a coordinate of the transposed rotation, applied to a
/// vector, sums.
pub open spec fn transposed_terms<T>(linear: Seq<Seq<T>>, v: Seq<T>, r: int) -> Seq<
    SignedProduct<T>,
> {
    seq![added(linear[0][r], v[0]), added(linear[1][r], v[1]), added(linear[2][r], v[2])]
}

/// `t` is the coordinate `r` of the translation of the inverse.
pub open spec fn is_inverse_translation<T, O: Arithmetic<T>>(
    ops: &O,
    linear: Seq<Seq<T>>,
    v: Seq<T>,
    r: int,
    t: T,
) -> bool {
    exists|u: T| #[trigger]
        crate::scalar::negative_of(ops, u, t) && is_signed_sum(ops, transposed_terms(linear, v, r), u)
}

pub open spec fn transposed<T>(m: Seq<Seq<T>>) -> Seq<Seq<T>> {
    Seq::new(3, |r: int| seq![m[0][r], m[1][r], m[2][r]])
}

/// `inverse` is the homogeneous matrix of the transposed rotation and of the
/// translation that it needs.
pub open spec fn is_rigid_inverse<T, O: Arithmetic<T>>(
    ops: &O,
    h: Seq<Seq<T>>,
    zero: T,
    one: T,
    inverse: Seq<Seq<T>>,
) -> bool {
    let linear = linear_part(h);
    let t = translation_part(inverse);
    &&& inverse =~~= homogeneous(transposed(linear), t, zero, one)
    &&& is_inverse_translation(ops, linear, translation_part(h), 0, t[0])
    &&& is_inverse_translation(ops, linear, translation_part(h), 1, t[1])
    &&& is_inverse_translation(ops, linear, translation_part(h), 2, t[2])
}

fn inverse_translation<T: Copy, O: Arithmetic<T>>(
    ops: &O,
    linear: &[[T; 3]; 3],
    v: &[T; 3],
    r: usize,
) -> (t: T)
    requires
        r < 3,
    ensures
        is_inverse_translation(ops, rows3(*linear), v@, r as int, t),
{
    let a = linear[0];
    let b = linear[1];
    let c = linear[2];
    let terms: Vec<SignedProduct<T>> = vec![
        term(true, a[r], v[0]),
        term(true, b[r], v[1]),
        term(true, c[r], v[2]),
    ];
    assert(terms@ =~= transposed_terms(rows3(*linear), v@, r as int));
    let u = signed_sum(ops, &terms);
    let t = ops.negative(u);
    assert(crate::scalar::negative_of(ops, u, t));
    t
}

/// The inverse of a rigid transform: the transposed rotation, and the
/// translation turned by it.
pub fn rigid_inverse_homogeneous<T: Copy, O: Arithmetic<T>>(
    h: &[[T; 4]; 4],
    zero: T,
    one: T,
    ops: &O,
) -> (r: [[T; 4]; 4])
    ensures
        is_rigid_inverse(ops, rows4(*h), zero, one, rows4(r)),
{
    let (linear, v) = rigid_from_homogeneous(h);
    let a = linear[0];
    let b = linear[1];
    let c = linear[2];
    let turned = [[a[0], b[0], c[0]], [a[1], b[1], c[1]], [a[2], b[2], c[2]]];
    let t = [
        inverse_translation(ops, &linear, &v, 0),
        inverse_translation(ops, &linear, &v, 1),
        inverse_translation(ops, &linear, &v, 2),
    ];
    let r = rigid_to_homogeneous(&turned, &t, zero, one);
    proof {
        let l = linear_part(rows4(*h));
        assert(rows3(linear) == l);
        assert(rows3(turned) =~~= transposed(l));
        assert(translation_part(rows4(r)) =~= t@);
        assert(rows4(r) =~~= homogeneous(transposed(l), t@, zero, one));
        assert(v@ == translation_part(rows4(*h)));
    }
    r
}

/// The operations that turn a rotation matrix into a quaternion. Nothing is
/// taken for granted of what they return.
pub trait RotationOps<T>: Division<T> + Signs<T> + Bounds<T> {
    /// Twice the square root.
    fn doubled_root(&self, a: T) -> T;

    fn quarter(&self, a: T) -> T;
}

/// The component of a quaternion that the others are divided by.
#[derive(Debug, Clone, Copy, PartialEq, Eq, Structural)]
pub enum Pivot {
    X,
    Y,
    Z,
    W,
}

pub open spec fn is_trace<T, O: Arithmetic<T>>(ops: &O, m: Seq<Seq<T>>, trace: T) -> bool {
    exists|u: T| #[trigger] crate::scalar::sum_of(ops, m[0][0], m[1][1], u) && crate::scalar::sum_of(ops, u, m[2][2], trace)
}

pub open spec fn says_greater<T, O: Bounds<T>>(ops: &O, a: T, b: T, r: bool) -> bool {
    crate::scalar::says_less(ops, b, a, r)
}

/// The scalar part where the trace is positive, else the component of the
/// largest diagonal entry.
pub open spec fn is_pivot<T, O: RotationOps<T>>(
    ops: &O,
    m: Seq<Seq<T>>,
    trace: T,
    pivot: Pivot,
) -> bool {
    let x = m[0][0];
    let y = m[1][1];
    let z = m[2][2];
    match pivot {
        Pivot::W => crate::scalar::says_positive(ops, trace, true),
        Pivot::X => crate::scalar::says_positive(ops, trace, false) && says_greater(ops, x, y, true)
            && says_greater(ops, x, z, true),
        Pivot::Y => crate::scalar::says_positive(ops, trace, false) && (says_greater(ops, x, y, false)
            || says_greater(ops, x, z, false)) && says_greater(ops, y, z, true),
        Pivot::Z => crate::scalar::says_positive(ops, trace, false) && (says_greater(ops, x, y, false)
            || says_greater(ops, x, z, false)) && says_greater(ops, y, z, false),
    }
}

/// `u` is `one` with `a` added and `b` and `c` taken away.
pub open spec fn is_balance<T, O: Arithmetic<T>>(ops: &O, one: T, a: T, b: T, c: T, u: T) -> bool {
    exists|v: T, w: T| #[trigger]
        crate::scalar::sum_of(ops, one, a, v) && #[trigger] crate::scalar::difference_of(ops, v, b, w) && crate::scalar::difference_of(
            ops,
            w,
            c,
            u,
        )
}

/// `u` is four times the square of the pivot.
pub open spec fn is_square<T, O: Arithmetic<T>>(
    ops: &O,
    m: Seq<Seq<T>>,
    one: T,
    trace: T,
    pivot: Pivot,
    u: T,
) -> bool {
    match pivot {
        Pivot::W => crate::scalar::sum_of(ops, trace, one, u),
        Pivot::X => is_balance(ops, one, m[0][0], m[1][1], m[2][2], u),
        Pivot::Y => is_balance(ops, one, m[1][1], m[0][0], m[2][2], u),
        Pivot::Z => is_balance(ops, one, m[2][2], m[0][0], m[1][1], u),
    }
}

pub open spec fn doubled_root_of<T, O: RotationOps<T>>(ops: &O, u: T, s: T) -> bool {
    call_ensures(O::doubled_root, (ops, u), s)
}

/// `s` is four times the pivot.
pub open spec fn is_scale<T, O: RotationOps<T>>(
    ops: &O,
    m: Seq<Seq<T>>,
    one: T,
    trace: T,
    pivot: Pivot,
    s: T,
) -> bool {
    exists|u: T| #[trigger]
        is_square(ops, m, one, trace, pivot, u) && doubled_root_of(ops, u, s)
}

/// `r` is the sum, or the difference, of two entries over `s`.
pub open spec fn is_ratio<T, O: RotationOps<T>>(
    ops: &O,
    add: bool,
    a: T,
    b: T,
    s: T,
    r: T,
) -> bool {
    exists|u: T|
        (if add {
            crate::scalar::sum_of(ops, a, b, u)
        } else {
            crate::scalar::difference_of(ops, a, b, u)
        }) && #[trigger] crate::scalar::quotient_of(ops, u, s, r)
}

pub open spec fn is_quarter<T, O: RotationOps<T>>(ops: &O, s: T, r: T) -> bool {
    call_ensures(O::quarter, (ops, s), r)
}

/// The components, given the pivot.
pub open spec fn are_components<T, O: RotationOps<T>>(
    ops: &O,
    m: Seq<Seq<T>>,
    pivot: Pivot,
    s: T,
    q: Seq<T>,
) -> bool {
    match pivot {
        Pivot::W => {
            &&& is_ratio(ops, false, m[2][1], m[1][2], s, q[0])
            &&& is_ratio(ops, false, m[0][2], m[2][0], s, q[1])
            &&& is_ratio(ops, false, m[1][0], m[0][1], s, q[2])
            &&& is_quarter(ops, s, q[3])
        },
        Pivot::X => {
            &&& is_quarter(ops, s, q[0])
            &&& is_ratio(ops, true, m[0][1], m[1][0], s, q[1])
            &&& is_ratio(ops, true, m[0][2], m[2][0], s, q[2])
            &&& is_ratio(ops, false, m[2][1], m[1][2], s, q[3])
        },
        Pivot::Y => {
            &&& is_ratio(ops, true, m[0][1], m[1][0], s, q[0])
            &&& is_quarter(ops, s, q[1])
            &&& is_ratio(ops, true, m[1][2], m[2][1], s, q[2])
            &&& is_ratio(ops, false, m[0][2], m[2][0], s, q[3])
        },
        Pivot::Z => {
            &&& is_ratio(ops, true, m[0][2], m[2][0], s, q[0])
            &&& is_ratio(ops, true, m[1][2], m[2][1], s, q[1])
            &&& is_quarter(ops, s, q[2])
            &&& is_ratio(ops, false, m[1][0], m[0][1], s, q[3])
        },
    }
}

/// `q` is the quaternion of the rotation matrix.
pub open spec fn is_unitquat<T, O: RotationOps<T>>(
    ops: &O,
    m: Seq<Seq<T>>,
    one: T,
    q: Seq<T>,
) -> bool {
    exists|trace: T, pivot: Pivot, s: T|
        {
            &&& is_trace(ops, m, trace)
            &&& is_pivot(ops, m, trace, pivot)
            &&& #[trigger] is_scale(ops, m, one, trace, pivot, s)
            &&& are_components(ops, m, pivot, s, q)
        }
}

fn balance<T: Copy, O: Arithmetic<T>>(ops: &O, one: T, a: T, b: T, c: T) -> (u: T)
    ensures
        is_balance(ops, one, a, b, c, u),
{
    let v = ops.plus(one, a);
    let w = ops.minus(v, b);
    let u = ops.minus(w, c);
    assert(crate::scalar::sum_of(ops, one, a, v) && crate::scalar::difference_of(ops, v, b, w));
    u
}

fn ratio<T: Copy, O: RotationOps<T>>(ops: &O, add: bool, a: T, b: T, s: T) -> (r: T)
    ensures
        is_ratio(ops, add, a, b, s, r),
{
    let u = if add {
        ops.plus(a, b)
    } else {
        ops.minus(a, b)
    };
    let r = ops.quotient(u, s);
    assert(crate::scalar::quotient_of(ops, u, s, r));
    r
}

/// The unit quaternion of a rotation matrix. The component that is found
/// first is the one that is safe to divide by.
pub fn rotmat_to_unitquat<T: Copy, O: RotationOps<T>>(m: &[[T; 3]; 3], one: T, ops: &O) -> (q: [T;
    4])
    ensures
        is_unitquat(ops, rows3(*m), one, q@),
{
    let a = m[0];
    let b = m[1];
    let c = m[2];
    let ghost rows = rows3(*m);
    let u = ops.plus(a[0], b[1]);
    let trace = ops.plus(u, c[2]);
    assert(crate::scalar::sum_of(ops, rows[0][0], rows[1][1], u));
    assert(is_trace(ops, rows, trace));
    let pivot = if ops.positive(trace) {
        Pivot::W
    } else if ops.less(b[1], a[0]) && ops.less(c[2], a[0]) {
        Pivot::X
    } else if ops.less(c[2], b[1]) {
        Pivot::Y
    } else {
        Pivot::Z
    };
    let square = match pivot {
        Pivot::W => ops.plus(trace, one),
        Pivot::X => balance(ops, one, a[0], b[1], c[2]),
        Pivot::Y => balance(ops, one, b[1], a[0], c[2]),
        Pivot::Z => balance(ops, one, c[2], a[0], b[1]),
    };
    let s = ops.doubled_root(square);
    proof {
        assert(is_pivot(ops, rows, trace, pivot));
        assert(is_square(ops, rows, one, trace, pivot, square));
        assert(is_scale(ops, rows, one, trace, pivot, s));
    }
    let q = match pivot {
        Pivot::W => [
            ratio(ops, false, c[1], b[2], s),
            ratio(ops, false, a[2], c[0], s),
            ratio(ops, false, b[0], a[1], s),
            ops.quarter(s),
        ],
        Pivot::X => [
            ops.quarter(s),
            ratio(ops, true, a[1], b[0], s),
            ratio(ops, true, a[2], c[0], s),
            ratio(ops, false, c[1], b[2], s),
        ],
        Pivot::Y => [
            ratio(ops, true, a[1], b[0], s),
            ops.quarter(s),
            ratio(ops, true, b[2], c[1], s),
            ratio(ops, false, a[2], c[0], s),
        ],
        Pivot::Z => [
            ratio(ops, true, a[2], c[0], s),
            ratio(ops, true, b[2], c[1], s),
            ops.quarter(s),
            ratio(ops, false, b[0], a[1], s),
        ],
    };
    assert(are_components(ops, rows, pivot, s, q@));
    q
}

/// The operations that turn a rotation vector into its axis and its angle.
/// Nothing is taken for granted of what they return.
pub trait AngleOps<T>: Lengths<T> + Division<T> {
    /// `a`, or a tiny positive number where `a` is less.
    fn not_zero(&self, a: T) -> T;

    fn cosine(&self, angle: T) -> T;

    fn sine(&self, angle: T) -> T;
}

/// Every coordinate over `d`.
pub open spec fn is_divided<T, O: Division<T>>(ops: &O, a: Seq<T>, d: T, r: Seq<T>) -> bool {
    &&& crate::scalar::quotient_of(ops, a[0], d, r[0])
    &&& crate::scalar::quotient_of(ops, a[1], d, r[1])
    &&& crate::scalar::quotient_of(ops, a[2], d, r[2])
}

pub(crate) fn divided<T: Copy, O: Division<T>>(ops: &O, a: &[T; 3], d: T) -> (r: [T; 3])
    ensures
        is_divided(ops, a@, d, r@),
{
    [ops.quotient(a[0], d), ops.quotient(a[1], d), ops.quotient(a[2], d)]
}

/// `r` is `eye` times the cosine, `cross` times the sine and `a * b` times
/// `rest`, added up.
pub open spec fn is_turn_entry<T, O: Arithmetic<T>>(
    ops: &O,
    cosine: T,
    sine: T,
    rest: T,
    eye: T,
    cross: T,
    a: T,
    b: T,
    r: T,
) -> bool {
    exists|p: T, q: T, o: T, w: T, u: T|
        {
            &&& #[trigger] crate::scalar::product_of(ops, eye, cosine, p)
            &&& #[trigger] crate::scalar::product_of(ops, cross, sine, q)
            &&& #[trigger] crate::scalar::product_of(ops, a, b, o)
            &&& #[trigger] crate::scalar::product_of(ops, o, rest, w)
            &&& #[trigger] crate::scalar::sum_of(ops, p, q, u)
            &&& crate::scalar::sum_of(ops, u, w, r)
        }
}

/// The matrix that takes a vector to its cross product with `k`; `n` is the
/// negative of `k`.
pub open spec fn cross_matrix<T>(k: Seq<T>, n: Seq<T>, zero: T) -> Seq<Seq<T>> {
    seq![seq![zero, n[2], k[1]], seq![k[2], zero, n[0]], seq![n[1], k[0], zero]]
}

/// `m` is the rotation about the unit vector `k` by the angle with the cosine
/// and the sine.
pub open spec fn is_turn<T, O: Arithmetic<T>>(
    ops: &O,
    k: Seq<T>,
    cosine: T,
    sine: T,
    zero: T,
    one: T,
    m: Seq<Seq<T>>,
) -> bool {
    exists|n: Seq<T>, rest: T|
        {
            &&& n.len() == 3
            &&& crate::scalar::negative_of(ops, k[0], #[trigger] n[0])
            &&& crate::scalar::negative_of(ops, k[1], n[1])
            &&& crate::scalar::negative_of(ops, k[2], n[2])
            &&& #[trigger] crate::scalar::difference_of(ops, one, cosine, rest)
            &&& forall|i: int, j: int|
                0 <= i < 3 && 0 <= j < 3 ==> is_turn_entry(
                    ops,
                    cosine,
                    sine,
                    rest,
                    if i == j {
                        one
                    } else {
                        zero
                    },
                    cross_matrix(k, n, zero)[i][j],
                    k[i],
                    k[j],
                    #[trigger] m[i][j],
                )
        }
}

fn turn_entry<T: Copy, O: Arithmetic<T>>(
    ops: &O,
    cosine: T,
    sine: T,
    rest: T,
    eye: T,
    cross: T,
    a: T,
    b: T,
) -> (r: T)
    ensures
        is_turn_entry(ops, cosine, sine, rest, eye, cross, a, b, r),
{
    let p = ops.times(eye, cosine);
    let q = ops.times(cross, sine);
    let o = ops.times(a, b);
    let w = ops.times(o, rest);
    let u = ops.plus(p, q);
    let r = ops.plus(u, w);
    proof {
        assert(crate::scalar::product_of(ops, eye, cosine, p));
        assert(crate::scalar::product_of(ops, cross, sine, q));
        assert(crate::scalar::product_of(ops, a, b, o));
        assert(crate::scalar::product_of(ops, o, rest, w));
        assert(crate::scalar::sum_of(ops, p, q, u));
    }
    r
}

/// The rotation about a unit vector, by the cosine and the sine of its angle.
fn turn<T: Copy, O: Arithmetic<T>>(
    ops: &O,
    k: &[T; 3],
    cosine: T,
    sine: T,
    zero: T,
    one: T,
) -> (m: [[T; 3]; 3])
    ensures
        is_turn(ops, k@, cosine, sine, zero, one, rows3(m)),
{
    let n = [ops.negative(k[0]), ops.negative(k[1]), ops.negative(k[2])];
    let rest = ops.minus(one, cosine);
    let m = [
        [
            turn_entry(ops, cosine, sine, rest, one, zero, k[0], k[0]),
            turn_entry(ops, cosine, sine, rest, zero, n[2], k[0], k[1]),
            turn_entry(ops, cosine, sine, rest, zero, k[1], k[0], k[2]),
        ],
        [
            turn_entry(ops, cosine, sine, rest, zero, k[2], k[1], k[0]),
            turn_entry(ops, cosine, sine, rest, one, zero, k[1], k[1]),
            turn_entry(ops, cosine, sine, rest, zero, n[0], k[1], k[2]),
        ],
        [
            turn_entry(ops, cosine, sine, rest, zero, n[1], k[2], k[0]),
            turn_entry(ops, cosine, sine, rest, zero, k[0], k[2], k[1]),
            turn_entry(ops, cosine, sine, rest, one, zero, k[2], k[2]),
        ],
    ];
    proof {
        let rows = rows3(m);
        assert(crate::scalar::negative_of(ops, k@[0], n@[0]));
        assert(crate::scalar::difference_of(ops, one, cosine, rest));
        assert forall|i: int, j: int| 0 <= i < 3 && 0 <= j < 3 implies is_turn_entry(
            ops,
            cosine,
            sine,
            rest,
            if i == j {
                one
            } else {
                zero
            },
            cross_matrix(k@, n@, zero)[i][j],
            k@[i],
            k@[j],
            #[trigger] rows[i][j],
        ) by {
            assert(i == 0 || i == 1 || i == 2);
            assert(j == 0 || j == 1 || j == 2);
        }
    }
    m
}

/// What a rotation vector goes through.
pub struct TurnSteps<T> {
    pub angle: T,
    pub divisor: T,
    pub axis: [T; 3],
    pub cosine: T,
    pub sine: T,
}

/// The length of the vector is the angle; the vector over its length, where
/// there is one, is the axis.
pub open spec fn are_turn_steps<T, O: AngleOps<T>>(
    ops: &O,
    v: [T; 3],
    zero: T,
    one: T,
    s: TurnSteps<T>,
    m: Seq<Seq<T>>,
) -> bool {
    &&& crate::scalar::length_of(ops, v, s.angle)
    &&& call_ensures(O::not_zero, (ops, s.angle), s.divisor)
    &&& is_divided(ops, v@, s.divisor, s.axis@)
    &&& call_ensures(O::cosine, (ops, s.angle), s.cosine)
    &&& call_ensures(O::sine, (ops, s.angle), s.sine)
    &&& is_turn(ops, s.axis@, s.cosine, s.sine, zero, one, m)
}

/// `m` is the rotation of a rotation vector.
pub open spec fn is_rotation_of<T, O: AngleOps<T>>(
    ops: &O,
    v: [T; 3],
    zero: T,
    one: T,
    m: Seq<Seq<T>>,
) -> bool {
    exists|s: TurnSteps<T>| #[trigger] are_turn_steps(ops, v, zero, one, s, m)
}

/// The rotation matrix of a rotation vector: its length is the angle, and its
/// direction the axis.
pub fn rotvec_to_rotmat<T: Copy, O: AngleOps<T>>(v: &[T; 3], zero: T, one: T, ops: &O) -> (m: [[T;
    3]; 3])
    ensures
        is_rotation_of(ops, *v, zero, one, rows3(m)),
{
    let angle = ops.length(v);
    let divisor = ops.not_zero(angle);
    let axis = divided(ops, v, divisor);
    let cosine = ops.cosine(angle);
    let sine = ops.sine(angle);
    let m = turn(ops, &axis, cosine, sine, zero, one);
    proof {
        let s = TurnSteps { angle, divisor, axis, cosine, sine };
        assert(are_turn_steps(ops, *v, zero, one, s, rows3(m)));
    }
    m
}

/// The rows of the identity.
pub open spec fn identity_rows<T>(zero: T, one: T) -> Seq<Seq<T>> {
    seq![
        seq![one, zero, zero, zero],
        seq![zero, one, zero, zero],
        seq![zero, zero, one, zero],
        seq![zero, zero, zero, one],
    ]
}

/// The transform that leaves every point where it is.
pub fn identity_matrix<T: Copy>(zero: T, one: T) -> (r: [[T; 4]; 4])
    ensures
        rows4(r) =~~= identity_rows(zero, one),
{
    let r = [
        [one, zero, zero, zero],
        [zero, one, zero, zero],
        [zero, zero, one, zero],
        [zero, zero, zero, one],
    ];
    assert(rows4(r) =~~= identity_rows(zero, one));
    r
}

} // verus!
