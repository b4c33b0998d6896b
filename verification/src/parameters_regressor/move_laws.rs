//! What the moves of a fit come to, in exact arithmetic.
use vstd::prelude::*;

use crate::kinematics::bone_poses::EndpointOps;
use crate::parameters_regressor::body_fit::{BodyFit, FitFailure};
use crate::parameters_regressor::fitting::BoneOps;
use crate::parameters_regressor::schedule::FitOps;
use crate::parameters_regressor::SolveOps;
use crate::registration::Rigid;
use crate::scalar::Arithmetic;
use crate::skinning::MotionOps;

verus! {

/// In exact arithmetic the points of an element are turned and then shifted by the rigid
/// transform of that element.
pub proof fn law_points_are_moved<T: Copy, O: Arithmetic<T>>(
    ops: &O,
    points: Vec<Vec<[T; 3]>>,
    roots: Vec<Rigid<T>>,
    r: Vec<Vec<[T; 3]>>,
    value: spec_fn(T) -> real,
    b: int,
    i: int,
    c: int,
)
    requires
        crate::scalar::is_exact(ops, value),
        call_ensures(
            crate::parameters_regressor::steps::move_points::<T, O>,
            (&points, &roots, ops),
            r,
        ),
        0 <= b < points@.len(),
        0 <= i < points@[b]@.len(),
        0 <= c < 3,
    ensures
        r@.len() == points@.len(),
        r@[b]@.len() == points@[b]@.len(),
        ({
            let row = roots@[b].rotation@[c]@;
            let p = points@[b]@[i]@;
            value(r@[b]@[i]@[c]) == value(row[0]) * value(p[0]) + value(row[1]) * value(p[1])
                + value(row[2]) * value(p[2]) + value(roots@[b].translation@[c])
        }),
{
    assert(crate::parameters_regressor::steps::are_moved_points(ops, roots@, points@, r@));
    let rows = crate::rotation::rows3(roots@[b].rotation);
    assert(crate::parameters_regressor::steps::is_moved_point(
        ops,
        roots@[b],
        points@[b]@[i]@,
        r@[b]@[i]@,
    ));
    assert(crate::parameters_regressor::steps::is_moved_coordinate(
        ops,
        rows[c],
        roots@[b].translation@[c],
        points@[b]@[i]@,
        r@[b]@[i]@[c],
    ));
    let x = choose|x: T| #[trigger]
        crate::rotation::is_inner(ops, rows[c], points@[b]@[i]@, x) && crate::scalar::sum_of(
            ops,
            x,
            roots@[b].translation@[c],
            r@[b]@[i]@[c],
        );
    crate::models::axis_laws::lemma_inner(ops, rows[c], points@[b]@[i]@, x, value);
    assert(c == 0 || c == 1 || c == 2);
    assert(rows[c] == roots@[b].rotation@[c]@);
}

/// The root of a pose is replaced by the rigid transform of its element: its rotation in
/// the upper left, its translation in the last column. The other bones stay.
pub proof fn law_roots_are_replaced<T: Copy>(
    pose: Vec<Vec<[[T; 4]; 4]>>,
    roots: Vec<Rigid<T>>,
    zero: T,
    one: T,
    r: Vec<Vec<[[T; 4]; 4]>>,
    b: int,
    i: int,
    k: int,
)
    requires
        call_ensures(
            crate::parameters_regressor::steps::replace_root::<T>,
            (&pose, &roots, zero, one),
            Some(r),
        ),
        0 <= b < pose@.len(),
        0 <= i < 3,
        0 <= k < 3,
    ensures
        r@.len() == pose@.len(),
        r@[b]@.len() == pose@[b]@.len(),
        r@[b]@[0]@[i]@[k] == roots@[b].rotation@[i]@[k],
        r@[b]@[0]@[i]@[3] == roots@[b].translation@[i],
        r@[b]@[0]@[3]@[k] == zero,
        r@[b]@[0]@[3]@[3] == one,
        forall|j: int| 1 <= j < r@[b]@.len() ==> #[trigger] r@[b]@[j] == pose@[b]@[j],
{
    assert(crate::parameters_regressor::steps::is_rerooted(
        pose@[b]@,
        roots@[b],
        zero,
        one,
        r@[b]@,
    ));
    let h = crate::rotation::rows4(r@[b]@[0]);
    let rows = crate::rotation::rows3(roots@[b].rotation);
    let g = crate::rotation::homogeneous(rows, roots@[b].translation@, zero, one);
    assert(i == 0 || i == 1 || i == 2);
    assert(k == 0 || k == 1 || k == 2);
    assert(h[i] == g[i] && h[3] == g[3]);
    assert(h[i] == r@[b]@[0]@[i]@ && h[3] == r@[b]@[0]@[3]@);
    assert(rows[i] == roots@[b].rotation@[i]@);
    assert(g[i] == rows[i].push(roots@[b].translation@[i]));
}

/// In exact arithmetic each matrix of the one list is multiplied from the left onto that
/// of the other in the same place.
pub proof fn law_matrices_are_multiplied<T: Copy, O: Arithmetic<T>>(
    ops: &O,
    left: Vec<Vec<[[T; 4]; 4]>>,
    right: Vec<Vec<[[T; 4]; 4]>>,
    zero: T,
    r: Vec<Vec<[[T; 4]; 4]>>,
    value: spec_fn(T) -> real,
    e: int,
    j: int,
    i: int,
    k: int,
)
    requires
        crate::scalar::is_exact(ops, value),
        value(zero) == 0 as real,
        call_ensures(
            crate::parameters_regressor::steps::multiply_all::<T, O>,
            (&left, &right, zero, ops),
            r,
        ),
        0 <= e < left@.len(),
        0 <= j < left@[e]@.len(),
        0 <= i < 4,
        0 <= k < 4,
    ensures
        r@.len() == left@.len(),
        r@[e]@.len() == left@[e]@.len(),
        ({
            let (x, y) = (left@[e]@[j]@, right@[e]@[j]@);
            value(r@[e]@[j]@[i]@[k]) == value(x[i]@[0]) * value(y[0]@[k]) + value(x[i]@[1]) * value(
                y[1]@[k],
            ) + value(x[i]@[2]) * value(y[2]@[k]) + value(x[i]@[3]) * value(y[3]@[k])
        }),
{
    assert(crate::parameters_regressor::steps::are_products(ops, zero, left@, right@, r@));
    let (a, b, c) = (
        crate::rotation::rows4(left@[e]@[j]),
        crate::rotation::rows4(right@[e]@[j]),
        crate::rotation::rows4(r@[e]@[j]),
    );
    assert(crate::models::matrices::is_matrix_product(ops, zero, a, b, c));
    crate::models::rest_laws::law_exact_matrix_product(ops, zero, a, b, c, value, i, k);
    assert(i == 0 || i == 1 || i == 2 || i == 3);
    assert(a[i] == left@[e]@[j]@[i]@);
    assert(c[i] == r@[e]@[j]@[i]@);
    assert(b[0] == right@[e]@[j]@[0]@ && b[1] == right@[e]@[j]@[1]@);
    assert(b[2] == right@[e]@[j]@[2]@ && b[3] == right@[e]@[j]@[3]@);
}

/// A point that an index names stands in the place of the index.
pub proof fn law_points_are_picked<A: Copy>(
    points: Vec<Vec<A>>,
    at: Vec<u32>,
    r: Vec<Vec<A>>,
    b: int,
    i: int,
)
    requires
        call_ensures(
            crate::parameters_regressor::steps::pick_all::<A>,
            (&points, &at),
            Some(r),
        ),
        0 <= b < points@.len(),
        0 <= i < at@.len(),
    ensures
        r@.len() == points@.len(),
        r@[b]@.len() == at@.len(),
        r@[b]@[i] == points@[b]@[at@[i] as int],
{
    assert(r@[b]@ == crate::models::full_model::picked(points@[b]@, at@));
}

proof fn lemma_flat<A>(points: Seq<Vec<A>>, n: int, b: int, k: int)
    requires
        forall|i: int| 0 <= i < points.len() ==> (#[trigger] points[i])@.len() == n,
        0 <= b < points.len(),
        0 <= k < n,
    ensures
        crate::parameters_regressor::steps::flattened(points)[b * n + k] == points[b]@[k],
    decreases points.len(),
{
    let rest = points.drop_last();
    assert forall|i: int| 0 <= i < rest.len() implies (#[trigger] rest[i])@.len() == n by {
        assert(rest[i] == points[i]);
    }
    crate::parameters_regressor::steps::lemma_flat_len(rest, n);
    let m = rest.len() as int;
    if b < m {
        lemma_flat(rest, n, b, k);
        assert(0 <= b * n + k < m * n) by (nonlinear_arith)
            requires
                0 <= b < m,
                0 <= k < n,
        ;
        assert(rest[b] == points[b]);
    } else {
        assert(points.last() == points[b]);
    }
}

/// The points of an element at the places.
pub open spec fn points_of<T>(points: Seq<Vec<[T; 3]>>, b: int, places: Seq<u32>) -> Seq<[T; 3]> {
    Seq::new(places.len(), |i: int| points[b]@[places[i] as int])
}

/// In exact arithmetic each bone of each element is moved by the transform that takes the
/// vertices of the bone from where they are in that element to where they are in its
/// target: the transform is multiplied from the left onto the bone.
pub proof fn law_bones_are_moved<
    'a,
    T: Copy,
    O: EndpointOps<T> + MotionOps<T> + BoneOps<T> + SolveOps<T>,
>(
    fit: BodyFit<'a, T, O>,
    reference: Vec<Vec<[T; 3]>>,
    target: Vec<Vec<[T; 3]>>,
    bones: Vec<Vec<[[T; 4]; 4]>>,
    r: Vec<Vec<[[T; 4]; 4]>>,
    value: spec_fn(T) -> real,
    b: int,
    j: int,
    i: int,
    k: int,
) -> (turns: Seq<Vec<[[T; 4]; 4]>>)
    requires
        crate::scalar::is_exact(fit.with().ops, value),
        value(fit.with().zero) == 0 as real,
        call_ensures(
            <BodyFit<'a, T, O> as FitOps>::move_bones,
            (&fit, &reference, &target, &bones),
            Ok::<Vec<Vec<[[T; 4]; 4]>>, FitFailure>(r),
        ),
        crate::parameters_regressor::body_fit::has_shape(
            target@,
            fit.size(),
            fit.partition().partition.unique_ids@.len() as int,
        ),
        0 <= b < fit.size(),
        0 <= j < fit.partition().partition.joint_vertex_sets@.len(),
        forall|s: int|
            0 <= s < fit.partition().partition.joint_vertex_sets@[j]@.len() ==> (
            #[trigger] fit.partition().partition.joint_vertex_sets@[j]@[s])
                < fit.partition().partition.unique_ids@.len(),
        0 <= i < 4,
        0 <= k < 4,
    ensures
        crate::parameters_regressor::fitting::is_bone_transform(
            fit.with().ops,
            fit.with().zero,
            fit.with().one,
            points_of(reference@, b, fit.partition().partition.joint_vertex_sets@[j]@),
            points_of(target@, b, fit.partition().partition.joint_vertex_sets@[j]@),
            fit.partition().partition.vertex_joint_weights@[j]@,
            crate::rotation::rows4(turns[b]@[j]),
        ),
        ({
            let (x, y) = (turns[b]@[j]@, bones@[b]@[j]@);
            value(r@[b]@[j]@[i]@[k]) == value(x[i]@[0]) * value(y[0]@[k]) + value(x[i]@[1]) * value(
                y[1]@[k],
            ) + value(x[i]@[2]) * value(y[2]@[k]) + value(x[i]@[3]) * value(y[3]@[k])
        }),
{
    let ops = fit.with().ops;
    let zero = fit.with().zero;
    let p = fit.partition().partition;
    let n = p.unique_ids@.len() as int;
    let set = p.joint_vertex_sets@[j]@;
    let turns = choose|turns: Seq<Vec<[[T; 4]; 4]>>| #[trigger]
        crate::parameters_regressor::body_fit::are_turns(
            ops,
            zero,
            fit.with().one,
            reference@,
            target@,
            fit.partition(),
            turns,
        ) && crate::parameters_regressor::steps::are_products(ops, zero, turns, bones@, r@);
    let (from, to) = (
        crate::parameters_regressor::fitting::points_at(
            crate::parameters_regressor::steps::flattened(reference@),
            b * n,
            set,
        ),
        crate::parameters_regressor::fitting::points_at(
            crate::parameters_regressor::steps::flattened(target@),
            b * n,
            set,
        ),
    );
    assert forall|s: int| 0 <= s < set.len() implies #[trigger] from[s] == points_of(
        reference@,
        b,
        set,
    )[s] by {
        assert(set[s] < n);
        lemma_flat(reference@, n, b, set[s] as int);
    }
    assert forall|s: int| 0 <= s < set.len() implies #[trigger] to[s] == points_of(
        target@,
        b,
        set,
    )[s] by {
        assert(set[s] < n);
        lemma_flat(target@, n, b, set[s] as int);
    }
    assert(from =~= points_of(reference@, b, set));
    assert(to =~= points_of(target@, b, set));
    assert(turns[b]@.len() == p.joint_vertex_sets@.len());
    assert(crate::rotation::rows4(turns[b]@[j]).len() == 4);
    let (x, y, z) = (
        crate::rotation::rows4(turns[b]@[j]),
        crate::rotation::rows4(bones@[b]@[j]),
        crate::rotation::rows4(r@[b]@[j]),
    );
    assert(crate::models::matrices::is_matrix_product(ops, zero, x, y, z));
    crate::models::rest_laws::law_exact_matrix_product(ops, zero, x, y, z, value, i, k);
    assert(i == 0 || i == 1 || i == 2 || i == 3);
    assert(x[i] == turns[b]@[j]@[i]@);
    assert(z[i] == r@[b]@[j]@[i]@);
    assert(y[0] == bones@[b]@[j]@[0]@ && y[1] == bones@[b]@[j]@[1]@);
    assert(y[2] == bones@[b]@[j]@[2]@ && y[3] == bones@[b]@[j]@[3]@);
    turns
}

} // verus!
