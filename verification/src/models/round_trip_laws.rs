//! In exact arithmetic vertices come back where parameters are taken from a
//! posed skeleton and pose it again.
use vstd::prelude::*;

use crate::models::matrices::Matrices;
use crate::models::pose::{PoseParameterization, PoseState};
use crate::scalar::Arithmetic;
use crate::skinning::dual::MotionOps;

verus! {

/// The terms stand for the same numbers.
pub open spec fn same_terms<T>(
    value: spec_fn(T) -> real,
    a: Seq<(T, T)>,
    b: Seq<(T, T)>,
) -> bool {
    &&& a.len() == b.len()
    &&& forall|i: int|
        0 <= i < a.len() ==> value((#[trigger] a[i]).0) == value(b[i].0) && value(a[i].1) == value(
            b[i].1,
        )
}

pub proof fn lemma_same_sum<T>(value: spec_fn(T) -> real, a: Seq<(T, T)>, b: Seq<(T, T)>)
    requires
        same_terms(value, a, b),
    ensures
        crate::utils::blend::exact_sum(value, a) == crate::utils::blend::exact_sum(value, b),
    decreases a.len(),
{
    if a.len() > 0 {
        let (f, g) = (a.drop_last(), b.drop_last());
        assert forall|i: int| 0 <= i < f.len() implies value((#[trigger] f[i]).0) == value(g[i].0)
            && value(f[i].1) == value(g[i].1) by {
            assert(f[i] == a[i]);
        }
        lemma_same_sum(value, f, g);
        assert(value(a[a.len() - 1].0) == value(b[a.len() - 1].0));
    }
}

/// The transforms stand for the same motions.
pub open spec fn same_motions<T>(
    value: spec_fn(T) -> real,
    a: Seq<[[T; 4]; 4]>,
    b: Seq<[[T; 4]; 4]>,
) -> bool {
    &&& a.len() == b.len()
    &&& forall|i: int|
        0 <= i < a.len() ==> crate::models::motions::motion_of(
            value,
            crate::rotation::rows4(#[trigger] a[i]),
        ) == crate::models::motions::motion_of(value, crate::rotation::rows4(b[i]))
}

proof fn lemma_same_coordinate<T, O: Arithmetic<T>>(
    ops: &O,
    zero: T,
    one: T,
    weights: Seq<T>,
    a: Seq<[[T; 4]; 4]>,
    b: Seq<[[T; 4]; 4]>,
    p: Seq<T>,
    r: int,
    x: T,
    y: T,
    value: spec_fn(T) -> real,
)
    requires
        crate::scalar::is_exact(ops, value),
        value(zero) == 0 as real,
        weights.len() == a.len(),
        same_motions(value, a, b),
        0 <= r < 3,
        crate::skinning::is_skinned_coordinate(ops, zero, one, weights, a, p, r, x),
        crate::skinning::is_skinned_coordinate(ops, zero, one, weights, b, p, r, y),
    ensures
        value(x) == value(y),
{
    let f = choose|row: Seq<T>| #[trigger]
        crate::skinning::is_blended_row(ops, zero, weights, a, r, row)
            && crate::utils::blend::is_blend(
            ops,
            zero,
            crate::skinning::row_terms(row, p, one),
            x,
        );
    let g = choose|row: Seq<T>| #[trigger]
        crate::skinning::is_blended_row(ops, zero, weights, b, r, row)
            && crate::utils::blend::is_blend(
            ops,
            zero,
            crate::skinning::row_terms(row, p, one),
            y,
        );
    assert forall|c: int| 0 <= c < 4 implies value(#[trigger] f[c]) == value(g[c]) by {
        let s = crate::skinning::entry_terms(weights, a, r, c);
        let t = crate::skinning::entry_terms(weights, b, r, c);
        assert forall|i: int| 0 <= i < s.len() implies value((#[trigger] s[i]).0) == value(t[i].0)
            && value(s[i].1) == value(t[i].1) by {
            let m = crate::rotation::rows4(a[i]);
            let n = crate::rotation::rows4(b[i]);
            assert(crate::models::motions::motion_of(value, m)
                == crate::models::motions::motion_of(value, n));
            assert(r == 0 || r == 1 || r == 2);
            assert(c == 0 || c == 1 || c == 2 || c == 3);
            assert(value(m[r][c]) == value(n[r][c]));
        }
        lemma_same_sum(value, s, t);
        crate::utils::blend::law_exact_blend(ops, zero, s, f[c], value);
        crate::utils::blend::law_exact_blend(ops, zero, t, g[c], value);
    }
    let s = crate::skinning::row_terms(f, p, one);
    let t = crate::skinning::row_terms(g, p, one);
    assert(value(f[0]) == value(g[0]) && value(f[1]) == value(g[1]) && value(f[2]) == value(g[2])
        && value(f[3]) == value(g[3]));
    lemma_same_sum(value, s, t);
    crate::utils::blend::law_exact_blend(ops, zero, s, x, value);
    crate::utils::blend::law_exact_blend(ops, zero, t, y, value);
}

/// In exact arithmetic linear blending takes a point to the same place where
/// the transforms stand for the same motions.
pub proof fn law_same_motions_same_place<T, O: Arithmetic<T>>(
    ops: &O,
    zero: T,
    one: T,
    weights: Seq<T>,
    a: Seq<[[T; 4]; 4]>,
    b: Seq<[[T; 4]; 4]>,
    p: Seq<T>,
    x: Seq<T>,
    y: Seq<T>,
    value: spec_fn(T) -> real,
)
    requires
        crate::scalar::is_exact(ops, value),
        value(zero) == 0 as real,
        weights.len() == a.len(),
        same_motions(value, a, b),
        crate::skinning::is_skinned(ops, zero, one, weights, a, p, x),
        crate::skinning::is_skinned(ops, zero, one, weights, b, p, y),
    ensures
        value(x[0]) == value(y[0]),
        value(x[1]) == value(y[1]),
        value(x[2]) == value(y[2]),
{
    lemma_same_coordinate(ops, zero, one, weights, a, b, p, 0, x[0], y[0], value);
    lemma_same_coordinate(ops, zero, one, weights, a, b, p, 1, x[1], y[1], value);
    lemma_same_coordinate(ops, zero, one, weights, a, b, p, 2, x[2], y[2], value);
}

/// The transforms of the bones of a vertex.
pub open spec fn transforms_at<T>(
    s: PoseState<[[T; 4]; 4]>,
    bones: Seq<u32>,
) -> Seq<[[T; 4]; 4]> {
    Seq::new(bones.len(), |k: int| s.transforms@[bones[k] as int])
}

/// The skeleton `s` was posed by rigid transforms, and `again` by the parameters
/// taken from it under `target`. With several roots both parameterizations treat
/// the first root apart, or neither does, or the target is absolute.
pub open spec fn is_posed_again<T: Copy, O: Arithmetic<T>>(
    ops: &O,
    zero: T,
    one: T,
    parents: Seq<i64>,
    rest: Seq<[[T; 4]; 4]>,
    mode: PoseParameterization,
    params: Seq<[[T; 4]; 4]>,
    identity: [[T; 4]; 4],
    s: PoseState<[[T; 4]; 4]>,
    target: PoseParameterization,
    converted: Seq<[[T; 4]; 4]>,
    again: PoseState<[[T; 4]; 4]>,
    value: spec_fn(T) -> real,
) -> bool {
    &&& crate::models::pose_laws::rooted(parents)
    &&& crate::models::pose_laws::roots_agree(parents, mode, target)
    &&& rest.len() == parents.len()
    &&& params.len() == rest.len()
    &&& forall|i: int|
        0 <= i < rest.len() ==> crate::models::motions::is_rigid(
            value,
            crate::rotation::rows4(#[trigger] rest[i]),
        )
    &&& forall|i: int|
        0 <= i < params.len() ==> crate::models::motions::is_rigid(
            value,
            crate::rotation::rows4(#[trigger] params[i]),
        )
    &&& crate::rotation::rows4(identity) =~~= crate::rotation::identity_rows(zero, one)
    &&& crate::models::pose::is_posed(
        &(Matrices { ops, zero, one }),
        mode,
        parents,
        rest,
        params,
        identity,
        s,
    )
    &&& crate::models::pose::are_parameters(&(Matrices { ops, zero, one }), s, target, converted)
    &&& crate::models::pose::is_posed(
        &(Matrices { ops, zero, one }),
        target,
        parents,
        rest,
        converted,
        identity,
        again,
    )
}

/// The transforms of the bones of a vertex come back.
proof fn lemma_transforms_return<T: Copy, O: Arithmetic<T>>(
    ops: &O,
    zero: T,
    one: T,
    parents: Seq<i64>,
    rest: Seq<[[T; 4]; 4]>,
    mode: PoseParameterization,
    params: Seq<[[T; 4]; 4]>,
    identity: [[T; 4]; 4],
    s: PoseState<[[T; 4]; 4]>,
    target: PoseParameterization,
    converted: Seq<[[T; 4]; 4]>,
    again: PoseState<[[T; 4]; 4]>,
    bones: Seq<u32>,
    value: spec_fn(T) -> real,
)
    requires
        crate::scalar::is_exact(ops, value),
        value(zero) == 0 as real,
        value(one) == 1 as real,
        is_posed_again(
            ops,
            zero,
            one,
            parents,
            rest,
            mode,
            params,
            identity,
            s,
            target,
            converted,
            again,
            value,
        ),
        forall|k: int| 0 <= k < bones.len() ==> #[trigger] bones[k] < rest.len(),
    ensures
        same_motions(value, transforms_at(s, bones), transforms_at(again, bones)),
{
    let a = transforms_at(s, bones);
    let b = transforms_at(again, bones);
    assert forall|k: int| 0 <= k < a.len() implies crate::models::motions::motion_of(
        value,
        crate::rotation::rows4(#[trigger] a[k]),
    ) == crate::models::motions::motion_of(value, crate::rotation::rows4(b[k])) by {
        assert(bones[k] < rest.len());
        crate::models::motions::law_skeletons_round_trip(
            ops,
            zero,
            one,
            parents,
            rest,
            mode,
            params,
            identity,
            s,
            target,
            converted,
            again,
            value,
            bones[k] as int,
        );
    }
}

/// In exact arithmetic a vertex that is blended linearly comes back to its place
/// where parameters are taken from a posed skeleton of rigid transforms under any
/// parameterization, and pose it again. With several roots this holds where both
/// parameterizations treat the first root apart, or neither does, and of absolute
/// poses.
pub proof fn law_vertices_round_trip<T: Copy, O: Arithmetic<T>>(
    ops: &O,
    zero: T,
    one: T,
    parents: Seq<i64>,
    rest: Seq<[[T; 4]; 4]>,
    mode: PoseParameterization,
    params: Seq<[[T; 4]; 4]>,
    identity: [[T; 4]; 4],
    s: PoseState<[[T; 4]; 4]>,
    target: PoseParameterization,
    converted: Seq<[[T; 4]; 4]>,
    again: PoseState<[[T; 4]; 4]>,
    weights: Seq<T>,
    bones: Seq<u32>,
    p: Seq<T>,
    x: Seq<T>,
    y: Seq<T>,
    value: spec_fn(T) -> real,
)
    requires
        crate::scalar::is_exact(ops, value),
        value(zero) == 0 as real,
        value(one) == 1 as real,
        is_posed_again(
            ops,
            zero,
            one,
            parents,
            rest,
            mode,
            params,
            identity,
            s,
            target,
            converted,
            again,
            value,
        ),
        weights.len() == bones.len(),
        forall|k: int| 0 <= k < bones.len() ==> #[trigger] bones[k] < rest.len(),
        crate::skinning::is_skinned(ops, zero, one, weights, transforms_at(s, bones), p, x),
        crate::skinning::is_skinned(ops, zero, one, weights, transforms_at(again, bones), p, y),
    ensures
        value(y[0]) == value(x[0]),
        value(y[1]) == value(x[1]),
        value(y[2]) == value(x[2]),
{
    lemma_transforms_return(
        ops,
        zero,
        one,
        parents,
        rest,
        mode,
        params,
        identity,
        s,
        target,
        converted,
        again,
        bones,
        value,
    );
    let a = transforms_at(s, bones);
    let b = transforms_at(again, bones);
    law_same_motions_same_place(ops, zero, one, weights, a, b, p, x, y, value);
}

/// Transforms that stand for the same motions have the same numbers.
pub proof fn lemma_same_matrices<T>(
    value: spec_fn(T) -> real,
    a: Seq<[[T; 4]; 4]>,
    b: Seq<[[T; 4]; 4]>,
)
    requires
        same_motions(value, a, b),
    ensures
        crate::skinning::alike_laws::same_matrices(value, a, b),
{
    assert forall|i: int, r: int, c: int| 0 <= i < a.len() && 0 <= r < 3 && 0 <= c < 4 implies value(
        #[trigger] a[i]@[r]@[c],
    ) == value(b[i]@[r]@[c]) by {
        let m = crate::rotation::rows4(a[i]);
        let n = crate::rotation::rows4(b[i]);
        assert(crate::models::motions::motion_of(value, m) == crate::models::motions::motion_of(
            value,
            n,
        ));
        assert(r == 0 || r == 1 || r == 2);
        assert(c == 0 || c == 1 || c == 2 || c == 3);
        assert(value(m[r][c]) == value(n[r][c]));
    }
}

/// In exact arithmetic a vertex that dual quaternions move comes back to its place
/// where parameters are taken from a posed skeleton of rigid transforms under any
/// parameterization, and pose it again, as far as the mixture of its transforms
/// turns. With several roots this holds where both parameterizations treat the
/// first root apart, or neither does, and of absolute poses.
pub proof fn law_dual_vertices_round_trip<T: Copy, O: MotionOps<T>>(
    ops: &O,
    zero: T,
    one: T,
    parents: Seq<i64>,
    rest: Seq<[[T; 4]; 4]>,
    mode: PoseParameterization,
    params: Seq<[[T; 4]; 4]>,
    identity: [[T; 4]; 4],
    s: PoseState<[[T; 4]; 4]>,
    target: PoseParameterization,
    converted: Seq<[[T; 4]; 4]>,
    again: PoseState<[[T; 4]; 4]>,
    weights: Seq<T>,
    bones: Seq<u32>,
    p: [T; 3],
    x: [T; 3],
    y: [T; 3],
    value: spec_fn(T) -> real,
)
    requires
        crate::skinning::dual_laws::moves_exactly(ops, value),
        value(zero) == 0 as real,
        value(one) == 1 as real,
        is_posed_again(
            ops,
            zero,
            one,
            parents,
            rest,
            mode,
            params,
            identity,
            s,
            target,
            converted,
            again,
            value,
        ),
        weights.len() == bones.len(),
        bones.len() > 0,
        forall|k: int| 0 <= k < bones.len() ==> #[trigger] bones[k] < rest.len(),
        crate::skinning::alike_laws::mixture_turns(
            ops,
            zero,
            one,
            weights,
            transforms_at(s, bones),
            value,
        ),
        crate::skinning::is_dual_skinned(ops, zero, one, weights, transforms_at(s, bones), p, x),
        crate::skinning::is_dual_skinned(
            ops,
            zero,
            one,
            weights,
            transforms_at(again, bones),
            p,
            y,
        ),
    ensures
        value(y@[0]) == value(x@[0]),
        value(y@[1]) == value(x@[1]),
        value(y@[2]) == value(x@[2]),
{
    lemma_transforms_return(
        ops,
        zero,
        one,
        parents,
        rest,
        mode,
        params,
        identity,
        s,
        target,
        converted,
        again,
        bones,
        value,
    );
    let a = transforms_at(s, bones);
    let b = transforms_at(again, bones);
    lemma_same_matrices(value, a, b);
    crate::skinning::alike_laws::law_same_matrices_same_place(
        ops,
        zero,
        one,
        weights,
        a,
        b,
        p,
        x,
        y,
        value,
    );
}

} // verus!
