//! Proper rotations out of the factors of a singular value decomposition.
use vstd::prelude::*;

use crate::rotation::{matrix_product, minor, signed_sum, term, SignedProduct};
use crate::scalar::Arithmetic;

verus! {

/// The decomposition of a matrix. Nothing is taken for granted of what is
/// returned.
pub trait FactorOps<T>: Arithmetic<T> {
    /// The left and the right factor of a singular value decomposition; the
    /// right one as it stands in the product, that is transposed.
    fn factors(&self, m: &[[T; 3]; 3]) -> ([[T; 3]; 3], [[T; 3]; 3]);

    /// One, or minus one for a negative number.
    fn sign(&self, a: T) -> T;
}

/// `p`, `q` and `s` are the minors of the last two rows.
pub open spec fn are_minors<T, O: Arithmetic<T>>(
    ops: &O,
    m: Seq<Seq<T>>,
    p: T,
    q: T,
    s: T,
) -> bool {
    &&& crate::rotation::is_minor(ops, m[1][1], m[2][2], m[2][1], m[1][2], p)
    &&& crate::rotation::is_minor(ops, m[1][0], m[2][2], m[2][0], m[1][2], q)
    &&& crate::rotation::is_minor(ops, m[1][0], m[2][1], m[2][0], m[1][1], s)
}

/// The products that the determinant sums.
pub open spec fn determinant_terms<T>(m: Seq<Seq<T>>, p: T, q: T, s: T) -> Seq<SignedProduct<T>> {
    seq![
        crate::rotation::added(m[0][0], p),
        crate::rotation::taken(m[0][1], q),
        crate::rotation::added(m[0][2], s),
    ]
}

/// `r` is the determinant, along the first row.
pub open spec fn is_determinant<T, O: Arithmetic<T>>(ops: &O, m: Seq<Seq<T>>, r: T) -> bool {
    exists|p: T, q: T, s: T| #[trigger]
        are_minors(ops, m, p, q, s) && crate::rotation::is_signed_sum(
            ops,
            determinant_terms(m, p, q, s),
            r,
        )
}

fn determinant<T: Copy, O: Arithmetic<T>>(ops: &O, m: &[[T; 3]; 3]) -> (r: T)
    ensures
        is_determinant(ops, crate::rotation::rows3(*m), r),
{
    let (a, b, c) = (m[0], m[1], m[2]);
    let p = minor(ops, b[1], c[2], c[1], b[2]);
    let q = minor(ops, b[0], c[2], c[0], b[2]);
    let s = minor(ops, b[0], c[1], c[0], b[1]);
    let terms: Vec<SignedProduct<T>> = vec![
        term(true, a[0], p),
        term(false, a[1], q),
        term(true, a[2], s),
    ];
    let r = signed_sum(ops, &terms);
    proof {
        let rows = crate::rotation::rows3(*m);
        assert(terms@ =~= determinant_terms(rows, p, q, s));
        assert(are_minors(ops, rows, p, q, s));
    }
    r
}

/// The identity with `sign` as its last entry.
pub open spec fn signed_identity<T>(zero: T, one: T, sign: T) -> Seq<Seq<T>> {
    seq![seq![one, zero, zero], seq![zero, one, zero], seq![zero, zero, sign]]
}

/// What a proper rotation goes through.
pub struct ProperSteps<T> {
    pub joined: [[T; 3]; 3],
    pub determinant: T,
    pub sign: T,
    pub signed: [[T; 3]; 3],
}

/// `r` is the product of `a`, of the identity with the sign of the determinant
/// of `a` times `b` as its last entry, and of `b`.
pub open spec fn are_proper_steps<T, O: FactorOps<T>>(
    ops: &O,
    zero: T,
    one: T,
    a: Seq<Seq<T>>,
    b: Seq<Seq<T>>,
    s: ProperSteps<T>,
    r: Seq<Seq<T>>,
) -> bool {
    let joined = crate::rotation::rows3(s.joined);
    let signed = crate::rotation::rows3(s.signed);
    &&& crate::rotation::is_matrix_product(ops, a, b, joined)
    &&& is_determinant(ops, joined, s.determinant)
    &&& call_ensures(O::sign, (ops, s.determinant), s.sign)
    &&& crate::rotation::is_matrix_product(ops, a, signed_identity(zero, one, s.sign), signed)
    &&& crate::rotation::is_matrix_product(ops, signed, b, r)
}

pub open spec fn is_proper<T, O: FactorOps<T>>(
    ops: &O,
    zero: T,
    one: T,
    a: Seq<Seq<T>>,
    b: Seq<Seq<T>>,
    r: Seq<Seq<T>>,
) -> bool {
    exists|s: ProperSteps<T>| #[trigger] are_proper_steps(ops, zero, one, a, b, s, r)
}

fn proper<T: Copy, O: FactorOps<T>>(
    ops: &O,
    zero: T,
    one: T,
    a: &[[T; 3]; 3],
    b: &[[T; 3]; 3],
) -> (r: [[T; 3]; 3])
    ensures
        is_proper(
            ops,
            zero,
            one,
            crate::rotation::rows3(*a),
            crate::rotation::rows3(*b),
            crate::rotation::rows3(r),
        ),
{
    let joined = matrix_product(ops, a, b);
    let det = determinant(ops, &joined);
    let sign = ops.sign(det);
    let middle = [[one, zero, zero], [zero, one, zero], [zero, zero, sign]];
    let signed = matrix_product(ops, a, &middle);
    let r = matrix_product(ops, &signed, b);
    proof {
        assert(crate::rotation::rows3(middle) =~~= signed_identity(zero, one, sign));
        let s = ProperSteps { joined, determinant: det, sign, signed };
        assert(are_proper_steps(
            ops,
            zero,
            one,
            crate::rotation::rows3(*a),
            crate::rotation::rows3(*b),
            s,
            crate::rotation::rows3(r),
        ));
    }
    r
}

fn transpose<T: Copy>(m: &[[T; 3]; 3]) -> (r: [[T; 3]; 3])
    ensures
        crate::rotation::rows3(r) =~~= crate::rotation::transposed(crate::rotation::rows3(*m)),
{
    let (a, b, c) = (m[0], m[1], m[2]);
    [[a[0], b[0], c[0]], [a[1], b[1], c[1]], [a[2], b[2], c[2]]]
}

/// `r` is the rotation that agrees best with the cross covariance `h`: its
/// factors, transposed and in reverse order, with the sign put right.
pub open spec fn is_best_rotation<T, O: FactorOps<T>>(
    ops: &O,
    zero: T,
    one: T,
    h: [[T; 3]; 3],
    r: Seq<Seq<T>>,
) -> bool {
    exists|f: ([[T; 3]; 3], [[T; 3]; 3])| #[trigger]
        call_ensures(O::factors, (ops, &h), f) && is_proper(
            ops,
            zero,
            one,
            crate::rotation::transposed(crate::rotation::rows3(f.1)),
            crate::rotation::transposed(crate::rotation::rows3(f.0)),
            r,
        )
}

/// The rotation that agrees best with a cross covariance.
pub fn best_rotation<T: Copy, O: FactorOps<T>>(
    ops: &O,
    zero: T,
    one: T,
    h: &[[T; 3]; 3],
) -> (r: [[T; 3]; 3])
    ensures
        is_best_rotation(ops, zero, one, *h, crate::rotation::rows3(r)),
{
    let f = ops.factors(h);
    let left = transpose(&f.0);
    let right = transpose(&f.1);
    let r = proper(ops, zero, one, &right, &left);
    assert(call_ensures(O::factors, (ops, h), f));
    r
}

/// `r` is the rotation nearest to `m`: its factors in their order, with the
/// sign put right.
pub open spec fn is_nearest_rotation<T, O: FactorOps<T>>(
    ops: &O,
    zero: T,
    one: T,
    m: [[T; 3]; 3],
    r: Seq<Seq<T>>,
) -> bool {
    exists|f: ([[T; 3]; 3], [[T; 3]; 3])| #[trigger]
        call_ensures(O::factors, (ops, &m), f) && is_proper(
            ops,
            zero,
            one,
            crate::rotation::rows3(f.0),
            crate::rotation::rows3(f.1),
            r,
        )
}

/// The rotation nearest to a matrix.
pub fn nearest_rotation<T: Copy, O: FactorOps<T>>(
    ops: &O,
    zero: T,
    one: T,
    m: &[[T; 3]; 3],
) -> (r: [[T; 3]; 3])
    ensures
        is_nearest_rotation(ops, zero, one, *m, crate::rotation::rows3(r)),
{
    let f = ops.factors(m);
    let r = proper(ops, zero, one, &f.0, &f.1);
    assert(call_ensures(O::factors, (ops, m), f));
    r
}

} // verus!
