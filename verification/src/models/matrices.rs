//! Homogeneous matrices, as the kinematics of a skeleton uses them.
use vstd::prelude::*;

use crate::kinematics::MatrixOps;
use crate::models::pose::{PoseParameterization, PoseState, RootOps};
use crate::rotation::{inner, rigid_from_homogeneous, rigid_inverse_homogeneous,
    rigid_to_homogeneous};
use crate::scalar::Arithmetic;
use crate::utils::blend::blend;

verus! {

/// Homogeneous matrices over scalars with the given arithmetic.
#[derive(Debug, Clone, Copy)]
pub struct Matrices<'a, T, O> {
    pub ops: &'a O,
    pub zero: T,
    pub one: T,
}

/// What an operation on matrices fails with: none of them does.
#[derive(Debug, Clone, Copy)]
pub struct NoFailure;

/// A row of `a` and a column of `b`.
pub open spec fn product_terms<T>(a: Seq<Seq<T>>, b: Seq<Seq<T>>, i: int, j: int) -> Seq<(T, T)> {
    seq![(a[i][0], b[0][j]), (a[i][1], b[1][j]), (a[i][2], b[2][j]), (a[i][3], b[3][j])]
}

/// `r` is the product of the matrices.
pub open spec fn is_matrix_product<T, O: Arithmetic<T>>(
    ops: &O,
    zero: T,
    a: Seq<Seq<T>>,
    b: Seq<Seq<T>>,
    r: Seq<Seq<T>>,
) -> bool {
    forall|i: int, j: int|
        0 <= i < 4 && 0 <= j < 4 ==> crate::utils::blend::is_blend(
            ops,
            zero,
            product_terms(a, b, i, j),
            #[trigger] r[i][j],
        )
}

fn entry<T: Copy, O: Arithmetic<T>>(
    a: &[[T; 4]; 4],
    b: &[[T; 4]; 4],
    i: usize,
    j: usize,
    zero: T,
    ops: &O,
) -> (r: T)
    requires
        i < 4,
        j < 4,
    ensures
        crate::utils::blend::is_blend(
            ops,
            zero,
            product_terms(crate::rotation::rows4(*a), crate::rotation::rows4(*b), i as int, j as int),
            r,
        ),
{
    let row = a[i];
    let terms: Vec<(T, T)> = vec![
        (row[0], b[0][j]),
        (row[1], b[1][j]),
        (row[2], b[2][j]),
        (row[3], b[3][j]),
    ];
    proof {
        let x = crate::rotation::rows4(*a);
        let y = crate::rotation::rows4(*b);
        assert(x[i as int] == a@[i as int]@);
        assert(terms@ =~= product_terms(x, y, i as int, j as int));
    }
    blend(ops, zero, &terms)
}

/// The product of two homogeneous matrices.
pub fn matrix_product<T: Copy, O: Arithmetic<T>>(
    a: &[[T; 4]; 4],
    b: &[[T; 4]; 4],
    zero: T,
    ops: &O,
) -> (r: [[T; 4]; 4])
    ensures
        is_matrix_product(
            ops,
            zero,
            crate::rotation::rows4(*a),
            crate::rotation::rows4(*b),
            crate::rotation::rows4(r),
        ),
{
    let r = [
        [
            entry(a, b, 0, 0, zero, ops),
            entry(a, b, 0, 1, zero, ops),
            entry(a, b, 0, 2, zero, ops),
            entry(a, b, 0, 3, zero, ops),
        ],
        [
            entry(a, b, 1, 0, zero, ops),
            entry(a, b, 1, 1, zero, ops),
            entry(a, b, 1, 2, zero, ops),
            entry(a, b, 1, 3, zero, ops),
        ],
        [
            entry(a, b, 2, 0, zero, ops),
            entry(a, b, 2, 1, zero, ops),
            entry(a, b, 2, 2, zero, ops),
            entry(a, b, 2, 3, zero, ops),
        ],
        [
            entry(a, b, 3, 0, zero, ops),
            entry(a, b, 3, 1, zero, ops),
            entry(a, b, 3, 2, zero, ops),
            entry(a, b, 3, 3, zero, ops),
        ],
    ];
    proof {
        let x = crate::rotation::rows4(*a);
        let y = crate::rotation::rows4(*b);
        let z = crate::rotation::rows4(r);
        assert forall|i: int, j: int| 0 <= i < 4 && 0 <= j < 4 implies crate::utils::blend::is_blend(
            ops,
            zero,
            product_terms(x, y, i, j),
            #[trigger] z[i][j],
        ) by {
            assert(i == 0 || i == 1 || i == 2 || i == 3);
            assert(j == 0 || j == 1 || j == 2 || j == 3);
        }
    }
    r
}

/// The entries of a transform without its translation.
pub open spec fn turned_only<T>(a: Seq<Seq<T>>, zero: T, one: T) -> Seq<Seq<T>> {
    crate::rotation::homogeneous(
        crate::rotation::linear_part(a),
        seq![zero, zero, zero],
        zero,
        one,
    )
}

/// `r` is the rotation of `a` after that of `b` undone, with the translation
/// of `a`.
pub open spec fn is_world_root<T, O: Arithmetic<T>>(
    ops: &O,
    zero: T,
    one: T,
    a: Seq<Seq<T>>,
    b: Seq<Seq<T>>,
    r: Seq<Seq<T>>,
) -> bool {
    &&& r =~~= crate::rotation::homogeneous(
        crate::rotation::linear_part(r),
        crate::rotation::translation_part(a),
        zero,
        one,
    )
    &&& forall|i: int, j: int|
        0 <= i < 3 && 0 <= j < 3 ==> crate::rotation::is_inner(
            ops,
            crate::rotation::linear_part(a)[i],
            crate::rotation::linear_part(b)[j],
            #[trigger] r[i][j],
        )
}

impl<'a, T: Copy, O: Arithmetic<T>> MatrixOps<[[T; 4]; 4], NoFailure> for Matrices<'a, T, O> {
    fn compose(&self, a: &[[T; 4]; 4], b: &[[T; 4]; 4]) -> (r: Result<[[T; 4]; 4], NoFailure>)
        ensures
            r is Ok,
            is_matrix_product(
                self.ops,
                self.zero,
                crate::rotation::rows4(*a),
                crate::rotation::rows4(*b),
                crate::rotation::rows4(r->Ok_0),
            ),
    {
        Ok(matrix_product(a, b, self.zero, self.ops))
    }

    fn invert(&self, a: &[[T; 4]; 4]) -> (r: Result<[[T; 4]; 4], NoFailure>)
        ensures
            r is Ok,
            crate::rotation::is_rigid_inverse(
                self.ops,
                crate::rotation::rows4(*a),
                self.zero,
                self.one,
                crate::rotation::rows4(r->Ok_0),
            ),
    {
        Ok(rigid_inverse_homogeneous(a, self.zero, self.one, self.ops))
    }
}

impl<'a, T: Copy, O: Arithmetic<T>> RootOps<[[T; 4]; 4], NoFailure> for Matrices<'a, T, O> {
    fn rotation_only(&self, a: &[[T; 4]; 4]) -> (r: Result<[[T; 4]; 4], NoFailure>)
        ensures
            r is Ok,
            crate::rotation::rows4(r->Ok_0) =~~= turned_only(
                crate::rotation::rows4(*a),
                self.zero,
                self.one,
            ),
    {
        let (linear, _) = rigid_from_homogeneous(a);
        let none = [self.zero, self.zero, self.zero];
        let r = rigid_to_homogeneous(&linear, &none, self.zero, self.one);
        assert(none@ =~= seq![self.zero, self.zero, self.zero]);
        assert(crate::rotation::rows3(linear) =~~= crate::rotation::linear_part(
            crate::rotation::rows4(*a),
        ));
        Ok(r)
    }

    fn world_root(&self, a: &[[T; 4]; 4], b: &[[T; 4]; 4]) -> (r: Result<[[T; 4]; 4], NoFailure>)
        ensures
            r is Ok,
            is_world_root(
                self.ops,
                self.zero,
                self.one,
                crate::rotation::rows4(*a),
                crate::rotation::rows4(*b),
                crate::rotation::rows4(r->Ok_0),
            ),
    {
        let (x, t) = rigid_from_homogeneous(a);
        let (y, _) = rigid_from_homogeneous(b);
        let linear = [
            [
                inner(self.ops, &x[0], &y[0]),
                inner(self.ops, &x[0], &y[1]),
                inner(self.ops, &x[0], &y[2]),
            ],
            [
                inner(self.ops, &x[1], &y[0]),
                inner(self.ops, &x[1], &y[1]),
                inner(self.ops, &x[1], &y[2]),
            ],
            [
                inner(self.ops, &x[2], &y[0]),
                inner(self.ops, &x[2], &y[1]),
                inner(self.ops, &x[2], &y[2]),
            ],
        ];
        let r = rigid_to_homogeneous(&linear, &t, self.zero, self.one);
        proof {
            let m = crate::rotation::rows4(*a);
            let n = crate::rotation::rows4(*b);
            let p = crate::rotation::linear_part(m);
            let q = crate::rotation::linear_part(n);
            let out = crate::rotation::rows4(r);
            assert(crate::rotation::rows3(x) =~~= p);
            assert(crate::rotation::rows3(y) =~~= q);
            assert(p[0] == x@[0]@ && p[1] == x@[1]@ && p[2] == x@[2]@);
            assert(q[0] == y@[0]@ && q[1] == y@[1]@ && q[2] == y@[2]@);
            let packed = crate::rotation::homogeneous(
                crate::rotation::rows3(linear),
                t@,
                self.zero,
                self.one,
            );
            assert(out == packed);
            assert(crate::rotation::linear_part(out) =~~= crate::rotation::rows3(linear));
            assert forall|i: int, j: int| 0 <= i < 3 && 0 <= j < 3 implies crate::rotation::is_inner(
                self.ops,
                p[i],
                q[j],
                #[trigger] out[i][j],
            ) by {
                assert(i == 0 || i == 1 || i == 2);
                assert(j == 0 || j == 1 || j == 2);
                assert(out[i] == crate::rotation::rows3(linear)[i].push(t@[i]));
                assert(out[i][j] == crate::rotation::rows3(linear)[i][j]);
            }
        }
        Ok(r)
    }
}

/// On homogeneous matrices no skeleton fails to be posed.
pub proof fn law_posing_never_fails<T: Copy, O: Arithmetic<T>>(
    matrices: &Matrices<T, O>,
    mode: PoseParameterization,
    fronts: Seq<(Vec<usize>, Vec<i64>)>,
    parents: Seq<i64>,
    rest: Seq<[[T; 4]; 4]>,
    params: Seq<[[T; 4]; 4]>,
    identity: [[T; 4]; 4],
    e: NoFailure,
)
    ensures
        !crate::models::pose::posing_fails::<[[T; 4]; 4], NoFailure, Matrices<T, O>>(
            matrices,
            mode,
            fronts,
            parents,
            rest,
            params,
            identity,
            e,
        ),
{
}

/// On homogeneous matrices the parameters of a posed skeleton can be had under
/// every parameterization.
pub proof fn law_parameters_never_fail<T: Copy, O: Arithmetic<T>>(
    matrices: &Matrices<T, O>,
    s: PoseState<[[T; 4]; 4]>,
    target: PoseParameterization,
    e: NoFailure,
)
    ensures
        !crate::models::pose::parameters_fail::<[[T; 4]; 4], NoFailure, Matrices<T, O>>(
            matrices,
            s,
            target,
            e,
        ),
{
}

} // verus!
