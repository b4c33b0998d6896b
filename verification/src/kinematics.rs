//! Forward kinematics.
//!
//! A bone tree is a list of parent positions, negative for a root. Poses are
//! propagated level by level: a front is the set of bones at one depth.
pub mod bone_poses;

use vstd::prelude::*;

verus! {

// ---------------------------------------------------------------------------
// Propagation fronts
// ---------------------------------------------------------------------------

/// Bone `i` is `d` steps below a root.
pub open spec fn at_depth(parents: Seq<i64>, d: nat, i: int) -> bool
    decreases d,
{
    &&& 0 <= i < parents.len()
    &&& if d == 0 {
        parents[i] < 0
    } else {
        0 <= parents[i] < parents.len() && at_depth(parents, (d - 1) as nat, parents[i] as int)
    }
}

/// `front` lists the bones at depth `d`, in ascending order, and their
/// parents.
pub open spec fn is_front(parents: Seq<i64>, d: nat, front: (Vec<usize>, Vec<i64>)) -> bool {
    let bones = front.0@;
    &&& forall|j: int, k: int| 0 <= j < k < bones.len() ==> #[trigger] bones[j] < #[trigger] bones[k]
    &&& forall|k: int| 0 <= k < bones.len() ==> at_depth(parents, d, #[trigger] bones[k] as int)
    &&& forall|i: int| #[trigger] at_depth(parents, d, i) ==> bones.contains(i as usize)
    &&& front.1@.len() == bones.len()
    &&& forall|k: int| 0 <= k < bones.len() ==> #[trigger] front.1@[k] == parents[bones[k] as int]
}

/// `fronts` holds the front of every depth at which there is a bone.
pub open spec fn are_fronts(parents: Seq<i64>, fronts: Seq<(Vec<usize>, Vec<i64>)>) -> bool {
    &&& forall|d: int|
        0 <= d < fronts.len() ==> is_front(parents, d as nat, #[trigger] fronts[d])
            && fronts[d].0@.len() > 0
    &&& forall|i: int| !#[trigger] at_depth(parents, fronts.len(), i)
}

/// A bone has one depth.
pub proof fn law_one_depth(parents: Seq<i64>, d: nat, e: nat, i: int)
    requires
        at_depth(parents, d, i),
        at_depth(parents, e, i),
    ensures
        d == e,
    decreases d,
{
    if d > 0 && e > 0 {
        law_one_depth(parents, (d - 1) as nat, (e - 1) as nat, parents[i] as int);
    }
}

/// No bone stands in two fronts, and every parent stands one front before its
/// child.
pub proof fn law_fronts_layered(
    parents: Seq<i64>,
    fronts: Seq<(Vec<usize>, Vec<i64>)>,
    d: int,
    k: int,
)
    requires
        are_fronts(parents, fronts),
        0 <= d < fronts.len(),
        0 <= k < fronts[d].0@.len(),
    ensures
        forall|e: int|
            0 <= e < fronts.len() && e != d ==> !(#[trigger] fronts[e]).0@.contains(
                fronts[d].0@[k],
            ),
        d == 0 ==> fronts[d].1@[k] < 0,
        d > 0 ==> fronts[d].1@[k] >= 0 && fronts[d - 1].0@.contains(fronts[d].1@[k] as usize),
{
    let b = fronts[d].0@[k];
    assert(is_front(parents, d as nat, fronts[d]));
    assert(at_depth(parents, d as nat, b as int));
    assert(fronts[d].1@[k] == parents[b as int]);
    assert forall|e: int| 0 <= e < fronts.len() && e != d implies !(
    #[trigger] fronts[e]).0@.contains(b) by {
        if fronts[e].0@.contains(b) {
            assert(is_front(parents, e as nat, fronts[e]));
            let j = choose|j: int| 0 <= j < fronts[e].0@.len() && fronts[e].0@[j] == b;
            assert(at_depth(parents, e as nat, fronts[e].0@[j] as int));
            law_one_depth(parents, d as nat, e as nat, b as int);
        }
    }
    if d > 0 {
        assert(is_front(parents, (d - 1) as nat, fronts[d - 1]));
        assert(at_depth(parents, (d - 1) as nat, parents[b as int] as int));
    }
}

/// Bone `i` descends from a root.
pub open spec fn leads_to_root(parents: Seq<i64>, i: int) -> bool {
    exists|d: nat| #[trigger] at_depth(parents, d, i)
}

/// Where parents stand before their children, every bone descends from a root.
pub proof fn law_ordered_bones_descend(parents: Seq<i64>, i: int)
    requires
        forall|k: int| 0 <= k < parents.len() ==> #[trigger] parents[k] < k,
        0 <= i < parents.len(),
    ensures
        leads_to_root(parents, i),
    decreases i,
{
    if parents[i] < 0 {
        assert(at_depth(parents, 0, i));
    } else {
        law_ordered_bones_descend(parents, parents[i] as int);
        let d = choose|d: nat| #[trigger] at_depth(parents, d, parents[i] as int);
        assert(at_depth(parents, d + 1, i));
    }
}

proof fn lemma_depth_below(parents: Seq<i64>, d: nat, i: int, n: nat)
    requires
        at_depth(parents, d, i),
        n <= d,
    ensures
        exists|j: int| #[trigger] at_depth(parents, n, j),
    decreases d,
{
    if n < d {
        lemma_depth_below(parents, (d - 1) as nat, parents[i] as int, n);
    }
}

/// Every bone that descends from a root is in some front, in whatever order the
/// bones stand.
pub proof fn law_fronts_complete(parents: Seq<i64>, fronts: Seq<(Vec<usize>, Vec<i64>)>, i: int)
    requires
        are_fronts(parents, fronts),
        leads_to_root(parents, i),
    ensures
        in_some_front(fronts, i),
{
    let d = choose|d: nat| #[trigger] at_depth(parents, d, i);
    if d >= fronts.len() {
        lemma_depth_below(parents, d, i, fronts.len());
    }
    assert(is_front(parents, d, fronts[d as int]));
    assert(fronts[d as int].0@.contains(i as usize));
}

/// Groups bones by their depth below a root: front `d` holds the bones at
/// depth `d`, in ascending order, and their parents. Bones that descend from
/// no root are in no front.
pub fn propagation_fronts(parent_indices: &Vec<i64>) -> (fronts: Vec<(Vec<usize>, Vec<i64>)>)
    ensures
        are_fronts(parent_indices@, fronts@),
{
    let n: usize = parent_indices.len();
    let ghost parents = parent_indices@;
    let mut fronts: Vec<(Vec<usize>, Vec<i64>)> = Vec::new();
    let mut current: Vec<usize> = Vec::new();
    let mut above: Vec<i64> = Vec::new();
    for i in 0..n
        invariant
            n == parents.len(),
            parents == parent_indices@,
            forall|j: int, k: int|
                0 <= j < k < current@.len() ==> #[trigger] current@[j] < #[trigger] current@[k],
            forall|k: int|
                0 <= k < current@.len() ==> #[trigger] current@[k] < i && at_depth(
                    parents,
                    0,
                    current@[k] as int,
                ),
            forall|j: int| 0 <= j < i && #[trigger] at_depth(parents, 0, j) ==> current@.contains(
                j as usize,
            ),
            above@.len() == current@.len(),
            forall|k: int|
                0 <= k < current@.len() ==> #[trigger] above@[k] == parents[current@[k] as int],
    {
        if parent_indices[i] < 0 {
            let ghost before = current@;
            current.push(i);
            above.push(parent_indices[i]);
            proof {
                assert(at_depth(parents, 0, i as int));
                assert forall|j: int| 0 <= j < i + 1 && #[trigger] at_depth(
                    parents,
                    0,
                    j,
                ) implies current@.contains(j as usize) by {
                    if j < i {
                        let x = choose|x: int| 0 <= x < before.len() && before[x] == j as usize;
                        assert(current@[x] == j as usize);
                    } else {
                        assert(current@[before.len() as int] == i);
                    }
                }
            }
        }
    }
    let ghost mut marks: Seq<usize> = Seq::empty();
    while current.len() > 0
        invariant
            n == parents.len(),
            parents == parent_indices@,
            is_front(parents, fronts@.len(), (current, above)),
            forall|d: int|
                0 <= d < fronts@.len() ==> is_front(parents, d as nat, #[trigger] fronts@[d])
                    && fronts@[d].0@.len() > 0,
            marks.len() == fronts@.len(),
            forall|d: int|
                0 <= d < marks.len() ==> at_depth(parents, d as nat, #[trigger] marks[d] as int),
            fronts@.len() <= n,
        decreases n - fronts@.len(),
    {
        let ghost depth = fronts@.len();
        proof {
            assert(at_depth(parents, depth, current@[0] as int));
            marks = marks.push(current@[0]);
            assert forall|d: int| 0 <= d < marks.len() implies at_depth(
                parents,
                d as nat,
                #[trigger] marks[d] as int,
            ) by {
                if d < depth {
                    assert(marks[d] == marks.drop_last()[d]);
                }
            }
            assert forall|d: int, e: int|
                0 <= d < marks.len() && 0 <= e < marks.len() && d != e implies marks[d]
                != marks[e] by {
                assert(at_depth(parents, d as nat, marks[d] as int));
                assert(at_depth(parents, e as nat, marks[e] as int));
                if marks[d] == marks[e] {
                    law_one_depth(parents, d as nat, e as nat, marks[d] as int);
                }
            }
            assert forall|d: int| 0 <= d < marks.len() implies 0 <= #[trigger] marks[d] < n by {
                assert(at_depth(parents, d as nat, marks[d] as int));
            }
            crate::utils::index::lemma_distinct_bounded(marks, n as nat);
        }
        let mut here: Vec<bool> = Vec::new();
        for i in 0..n
            invariant
                here@.len() == i,
                forall|j: int| 0 <= j < i ==> !#[trigger] here@[j],
        {
            here.push(false);
        }
        let width: usize = current.len();
        for k in 0..width
            invariant
                width == current@.len(),
                n == parents.len(),
                here@.len() == n,
                is_front(parents, depth, (current, above)),
                forall|j: int|
                    0 <= j < n ==> (#[trigger] here@[j] <==> current@.take(k as int).contains(
                        j as usize,
                    )),
        {
            let ghost seen = current@.take(k as int);
            let ghost seen2 = current@.take(k + 1);
            let b: usize = current[k];
            let ghost before = here@;
            proof {
                assert(at_depth(parents, depth, current@[k as int] as int));
            }
            here[b] = true;
            proof {
                assert(seen2 == seen.push(b));
                assert forall|j: int| 0 <= j < n implies (#[trigger] here@[j]
                    <==> seen2.contains(j as usize)) by {
                    if seen.contains(j as usize) {
                        let x = choose|x: int| 0 <= x < seen.len() && seen[x] == j as usize;
                        assert(seen2[x] == j as usize);
                        assert(before[j]);
                    }
                    if j == b {
                        assert(seen2[k as int] == b);
                    } else {
                        assert(here@[j] == before[j]);
                        if seen2.contains(j as usize) {
                            let x = choose|x: int|
                                0 <= x < seen2.len() && seen2[x] == j as usize;
                            assert(x != k);
                            assert(seen[x] == j as usize);
                        }
                    }
                }
            }
        }
        assert(current@.take(width as int) == current@);
        assert(is_front(parents, depth, (current, above)));
        let ghost level = current@;
        fronts.push((current, above));
        current = Vec::new();
        above = Vec::new();
        for i in 0..n
            invariant
                n == parents.len(),
                parents == parent_indices@,
                here@.len() == n,
                forall|j: int| 0 <= j < n ==> (#[trigger] here@[j] <==> level.contains(j as usize)),
                forall|k: int|
                    0 <= k < level.len() ==> at_depth(parents, depth, #[trigger] level[k] as int),
                forall|j: int| #[trigger]
                    at_depth(parents, depth, j) ==> level.contains(j as usize),
                forall|j: int, k: int|
                    0 <= j < k < current@.len() ==> #[trigger] current@[j]
                        < #[trigger] current@[k],
                forall|k: int|
                    0 <= k < current@.len() ==> #[trigger] current@[k] < i && at_depth(
                        parents,
                        depth + 1,
                        current@[k] as int,
                    ),
                forall|j: int|
                    0 <= j < i && #[trigger] at_depth(parents, depth + 1, j)
                        ==> current@.contains(j as usize),
                above@.len() == current@.len(),
                forall|k: int|
                    0 <= k < current@.len() ==> #[trigger] above@[k]
                        == parents[current@[k] as int],
        {
            let p: i64 = parent_indices[i];
            let ghost before = current@;
            if p >= 0 && (p as u64) < (n as u64) && here[p as usize] {
                proof {
                    let x = choose|x: int| 0 <= x < level.len() && level[x] == p as usize;
                    assert(at_depth(parents, depth, level[x] as int));
                    assert(at_depth(parents, depth + 1, i as int));
                }
                current.push(i);
                above.push(p);
                proof {
                    assert forall|j: int| 0 <= j < i + 1 && #[trigger] at_depth(
                        parents,
                        depth + 1,
                        j,
                    ) implies current@.contains(j as usize) by {
                        if j < i {
                            let x = choose|x: int|
                                0 <= x < before.len() && before[x] == j as usize;
                            assert(current@[x] == j as usize);
                        } else {
                            assert(current@[before.len() as int] == i);
                        }
                    }
                }
            } else {
                proof {
                    if at_depth(parents, depth + 1, i as int) {
                        assert(at_depth(parents, depth, p as int));
                        assert(level.contains(p as usize));
                        assert(here@[p as int]);
                    }
                }
            }
        }
    }
    proof {
        assert forall|i: int| !#[trigger] at_depth(parents, fronts@.len(), i) by {
            if at_depth(parents, fronts@.len(), i) {
                assert(current@.contains(i as usize));
            }
        }
    }
    fronts
}

// ---------------------------------------------------------------------------
// Forward kinematics
// ---------------------------------------------------------------------------

/// The operations on matrices that kinematics rests on. They may fail, and
/// nothing is taken for granted of what they return.
pub trait MatrixOps<M, E> {
    fn compose(&self, a: &M, b: &M) -> Result<M, E>;

    fn invert(&self, a: &M) -> Result<M, E>;
}

/// The pose of every bone, and the transform from its rest pose to it.
#[derive(Debug, Clone)]
pub struct FkOutput<M> {
    pub poses: Vec<M>,
    pub transforms: Vec<M>,
}

/// Why forward kinematics fails.
#[derive(Debug, Clone)]
pub enum FkError<E> {
    /// The number of parents is not the number of bones.
    ParentCount { parents: usize, bones: usize },
    /// There are no bones.
    NoBones,
    /// An operation on matrices failed.
    Matrix(E),
}

/// `r` is a product of `a` and `b`.
pub open spec fn product<M, E, O: MatrixOps<M, E>>(ops: &O, a: M, b: M, r: M) -> bool {
    call_ensures(O::compose, (ops, &a, &b), Ok::<M, E>(r))
}

/// `r` is an inverse of `a`.
pub open spec fn inverse_of<M, E, O: MatrixOps<M, E>>(ops: &O, a: M, r: M) -> bool {
    call_ensures(O::invert, (ops, &a), Ok::<M, E>(r))
}

/// A product of `a` and `b` is asked for, and refused with `e`.
pub open spec fn no_product<M, E, O: MatrixOps<M, E>>(ops: &O, a: M, b: M, e: E) -> bool {
    call_ensures(O::compose, (ops, &a, &b), Err::<M, E>(e))
}

/// An inverse of `a` is asked for, and refused with `e`.
pub open spec fn no_inverse<M, E, O: MatrixOps<M, E>>(ops: &O, a: M, e: E) -> bool {
    call_ensures(O::invert, (ops, &a), Err::<M, E>(e))
}

/// The pose `pose` and the transform `transform` of a bone, where `t` is its
/// rest pose times its delta and `i` the inverse of its rest pose: the pose is
/// the transform of the parent times `t`, for a root the base times `t`, or
/// `t` itself; the transform is the pose times `i`.
pub open spec fn bone_step<M, E, O: MatrixOps<M, E>>(
    ops: &O,
    above: Option<M>,
    t: M,
    i: M,
    pose: M,
    transform: M,
) -> bool {
    &&& match above {
        Some(a) => product(ops, a, t, pose),
        None => pose == t,
    }
    &&& product(ops, pose, i, transform)
}

/// Posing a bone whose rest pose times its delta is `t` fails with `e`: its rest
/// pose has no inverse, or a product with the inverse at hand is refused, first
/// that of the matrix above and `t`, then that of the pose and the inverse.
pub open spec fn bone_fails_after<M, E, O: MatrixOps<M, E>>(
    ops: &O,
    rest: M,
    above: Option<M>,
    t: M,
    e: E,
) -> bool {
    ||| no_inverse(ops, rest, e)
    ||| exists|i: M| #[trigger] inverse_of(ops, rest, i) && match above {
        Some(a) => no_product(ops, a, t, e) || exists|pose: M| #[trigger]
            product(ops, a, t, pose) && no_product(ops, pose, i, e),
        None => no_product(ops, t, i, e),
    }
}

/// Posing a bone fails with `e`: at one step, on the values that the steps before
/// it gave.
pub open spec fn bone_fails<M, E, O: MatrixOps<M, E>>(
    ops: &O,
    rest: M,
    delta: M,
    above: Option<M>,
    e: E,
) -> bool {
    ||| no_product(ops, rest, delta, e)
    ||| exists|t: M| #[trigger] product(ops, rest, delta, t) && bone_fails_after(
        ops,
        rest,
        above,
        t,
        e,
    )
}

/// The matrix that the delta of bone `b` is applied under.
pub open spec fn above_bone<M>(
    parent: i64,
    base: Option<M>,
    transforms: Seq<M>,
) -> Option<M> {
    if parent >= 0 {
        Some(transforms[parent as int])
    } else {
        base
    }
}

/// Bone `b` has the pose and the transform that its parent gives it.
pub open spec fn bone_posed<M, E, O: MatrixOps<M, E>>(
    ops: &O,
    rest: M,
    delta: M,
    above: Option<M>,
    pose: M,
    transform: M,
) -> bool {
    exists|t: M, i: M| #[trigger]
        product(ops, rest, delta, t) && #[trigger] inverse_of(ops, rest, i) && bone_step(ops,
            above,
            t,
            i,
            pose,
            transform,
        )
}

/// Every bone has the pose and the transform that its parent gives it.
pub open spec fn all_posed<M, E, O: MatrixOps<M, E>>(
    ops: &O,
    parents: Seq<i64>,
    rest: Seq<M>,
    delta: Seq<M>,
    base: Option<M>,
    poses: Seq<M>,
    transforms: Seq<M>,
) -> bool {
    &&& poses.len() == rest.len()
    &&& transforms.len() == rest.len()
    &&& forall|b: int|
        0 <= b < rest.len() ==> bone_posed(
            ops,
            rest[b],
            delta[b],
            above_bone(parents[b], base, transforms),
            #[trigger] poses[b],
            transforms[b],
        )
}

/// The first `n` bones have the poses and the transforms that their parents give
/// them.
pub open spec fn first_posed<M, E, O: MatrixOps<M, E>>(
    ops: &O,
    parents: Seq<i64>,
    rest: Seq<M>,
    delta: Seq<M>,
    base: Option<M>,
    poses: Seq<M>,
    transforms: Seq<M>,
    n: int,
) -> bool {
    &&& poses.len() == n
    &&& transforms.len() == n
    &&& forall|b: int|
        0 <= b < n ==> bone_posed(
            ops,
            rest[b],
            delta[b],
            above_bone(parents[b], base, transforms),
            #[trigger] poses[b],
            transforms[b],
        )
}

/// Posing bone after bone fails with `e`: the bones before some bone are posed,
/// and that bone, under what its parent was given, fails.
pub open spec fn bones_fail<M, E, O: MatrixOps<M, E>>(
    ops: &O,
    parents: Seq<i64>,
    rest: Seq<M>,
    delta: Seq<M>,
    base: Option<M>,
    e: E,
) -> bool {
    exists|poses: Seq<M>, transforms: Seq<M>, b: int|
        0 <= b < rest.len() && #[trigger] first_posed(
            ops,
            parents,
            rest,
            delta,
            base,
            poses,
            transforms,
            b,
        ) && bone_fails(ops, rest[b], delta[b], above_bone(parents[b], base, transforms), e)
}

/// Poses one bone.
fn pose_bone<M, E, O: MatrixOps<M, E>>(
    ops: &O,
    rest: &M,
    delta: &M,
    above: Option<&M>,
) -> (r: Result<(M, M), E>)
    ensures
        match r {
            Ok((pose, transform)) => bone_posed(
                ops,
                *rest,
                *delta,
                match above {
                    Some(a) => Some(*a),
                    None => None,
                },
                pose,
                transform,
            ),
            Err(e) => bone_fails(
                ops,
                *rest,
                *delta,
                match above {
                    Some(a) => Some(*a),
                    None => None,
                },
                e,
            ),
        },
{
    let t = match ops.compose(rest, delta) {
        Ok(t) => t,
        Err(e) => {
            assert(no_product(ops, *rest, *delta, e));
            return Err(e);
        },
    };
    let ghost t0 = t;
    let ghost over: Option<M> = match above {
        Some(a) => Some(*a),
        None => None,
    };
    assert(product(ops, *rest, *delta, t));
    let i = match ops.invert(rest) {
        Ok(i) => i,
        Err(e) => {
            assert(no_inverse(ops, *rest, e));
            assert(bone_fails_after(ops, *rest, over, t0, e));
            return Err(e);
        },
    };
    assert(inverse_of(ops, *rest, i));
    let pose = match above {
        Some(a) => match ops.compose(a, &t) {
            Ok(pose) => pose,
            Err(e) => {
                assert(no_product(ops, *a, t0, e));
                assert(bone_fails_after(ops, *rest, over, t0, e));
                return Err(e);
            },
        },
        None => t,
    };
    match ops.compose(&pose, &i) {
        Ok(transform) => {
            proof {
                assert(product(ops, pose, i, transform));
                assert(bone_step(ops, over, t0, i, pose, transform));
            }
            Ok((pose, transform))
        },
        Err(e) => {
            proof {
                assert(no_product(ops, pose, i, e));
                assert(over is Some ==> product(ops, over->0, t0, pose));
                assert(bone_fails_after(ops, *rest, over, t0, e));
            }
            Err(e)
        },
    }
}

/// Every bone below `n` stands once in the fronts, and every parent is `-1` or
/// stands in an earlier front.
pub open spec fn covering(fronts: Seq<(Vec<usize>, Vec<i64>)>, n: int) -> bool {
    &&& forall|d: int|
        0 <= d < fronts.len() ==> (#[trigger] fronts[d]).1@.len() == fronts[d].0@.len()
    &&& forall|d: int, k: int|
        0 <= d < fronts.len() && 0 <= k < fronts[d].0@.len() ==> #[trigger] fronts[d].0@[k] < n && (
        fronts[d].1@[k] == -1 || exists|e: int|
            0 <= e < d && 0 <= fronts[d].1@[k] <= usize::MAX && (#[trigger] fronts[e]).0@.contains(
                fronts[d].1@[k] as usize,
            ))
    &&& forall|d: int, k: int, e: int, j: int|
        0 <= d < fronts.len() && 0 <= k < fronts[d].0@.len() && 0 <= e < fronts.len() && 0 <= j
            < fronts[e].0@.len() && #[trigger] fronts[d].0@[k] == #[trigger] fronts[e].0@[j] ==> d
            == e && k == j
    &&& forall|b: int| 0 <= b < n ==> #[trigger] in_some_front(fronts, b)
}

pub open spec fn in_some_front(fronts: Seq<(Vec<usize>, Vec<i64>)>, b: int) -> bool {
    exists|d: int| 0 <= d < fronts.len() && (#[trigger] fronts[d]).0@.contains(b as usize)
}

/// The parents that the fronts name are those of `parents`.
pub open spec fn fronts_match(fronts: Seq<(Vec<usize>, Vec<i64>)>, parents: Seq<i64>) -> bool {
    forall|d: int, k: int|
        0 <= d < fronts.len() && 0 <= k < fronts[d].0@.len() ==> #[trigger] fronts[d].1@[k]
            == parents[fronts[d].0@[k] as int]
}

/// The fronts of bones that all descend from roots cover the bones, in whatever
/// order they stand.
pub proof fn law_fronts_cover(parents: Seq<i64>, fronts: Seq<(Vec<usize>, Vec<i64>)>)
    requires
        are_fronts(parents, fronts),
        parents.len() <= usize::MAX,
        forall|k: int| 0 <= k < parents.len() ==> -1 <= #[trigger] parents[k],
        forall|k: int| 0 <= k < parents.len() ==> #[trigger] leads_to_root(parents, k),
    ensures
        covering(fronts, parents.len() as int),
        fronts_match(fronts, parents),
{
    let n = parents.len() as int;
    assert forall|d: int| 0 <= d < fronts.len() implies (#[trigger] fronts[d]).1@.len()
        == fronts[d].0@.len() by {
        assert(is_front(parents, d as nat, fronts[d]));
    }
    assert forall|d: int, k: int|
        0 <= d < fronts.len() && 0 <= k < fronts[d].0@.len() implies #[trigger] fronts[d].0@[k] < n
        && (fronts[d].1@[k] == -1 || exists|e: int|
        0 <= e < d && 0 <= fronts[d].1@[k] <= usize::MAX && (#[trigger] fronts[e]).0@.contains(
            fronts[d].1@[k] as usize,
        )) by {
        assert(is_front(parents, d as nat, fronts[d]));
        assert(at_depth(parents, d as nat, fronts[d].0@[k] as int));
        law_fronts_layered(parents, fronts, d, k);
        assert(fronts[d].1@[k] == parents[fronts[d].0@[k] as int]);
        if d > 0 {
            assert(fronts[d - 1].0@.contains(fronts[d].1@[k] as usize));
        }
    }
    assert forall|d: int, k: int, e: int, j: int|
        0 <= d < fronts.len() && 0 <= k < fronts[d].0@.len() && 0 <= e < fronts.len() && 0 <= j
            < fronts[e].0@.len() && #[trigger] fronts[d].0@[k]
            == #[trigger] fronts[e].0@[j] implies d == e && k == j by {
        law_fronts_layered(parents, fronts, d, k);
        assert(fronts[e].0@.contains(fronts[e].0@[j]));
        assert(is_front(parents, d as nat, fronts[d]));
        if k < j {
            assert(fronts[d].0@[k] < fronts[d].0@[j]);
        } else if j < k {
            assert(fronts[d].0@[j] < fronts[d].0@[k]);
        }
    }
    assert forall|b: int| 0 <= b < n implies #[trigger] in_some_front(fronts, b) by {
        law_fronts_complete(parents, fronts, b);
    }
    assert forall|d: int, k: int|
        0 <= d < fronts.len() && 0 <= k < fronts[d].0@.len() implies #[trigger] fronts[d].1@[k]
        == parents[fronts[d].0@[k] as int] by {
        assert(is_front(parents, d as nat, fronts[d]));
    }
}

/// The bones of the fronts before `d`, and the first `k` of front `d`, have the
/// poses and the transforms that their parents give them.
pub open spec fn fronts_posed<M, E, O: MatrixOps<M, E>>(
    ops: &O,
    fronts: Seq<(Vec<usize>, Vec<i64>)>,
    rest: Seq<M>,
    delta: Seq<M>,
    base: Option<M>,
    poses: Seq<M>,
    transforms: Seq<M>,
    d: int,
    k: int,
) -> bool {
    forall|e: int, j: int|
        0 <= e < fronts.len() && 0 <= j < fronts[e].0@.len() && (e < d || (e == d && j < k))
            ==> bone_posed(
            ops,
            rest[#[trigger] fronts[e].0@[j] as int],
            delta[fronts[e].0@[j] as int],
            above_bone(fronts[e].1@[j], base, transforms),
            poses[fronts[e].0@[j] as int],
            transforms[fronts[e].0@[j] as int],
        )
}

/// Posing front after front fails with `e`: the bones before some bone, in the
/// order of the fronts, are posed, and that bone, under what its parent was
/// given, fails.
pub open spec fn fronts_fail<M, E, O: MatrixOps<M, E>>(
    ops: &O,
    fronts: Seq<(Vec<usize>, Vec<i64>)>,
    rest: Seq<M>,
    delta: Seq<M>,
    base: Option<M>,
    e: E,
) -> bool {
    exists|poses: Seq<M>, transforms: Seq<M>, d: int, k: int|
        {
            &&& 0 <= d < fronts.len()
            &&& 0 <= k < fronts[d].0@.len()
            &&& #[trigger] fronts_posed(
                ops,
                fronts,
                rest,
                delta,
                base,
                poses,
                transforms,
                d,
                k,
            )
            &&& bone_fails(
                ops,
                rest[fronts[d].0@[k] as int],
                delta[fronts[d].0@[k] as int],
                above_bone(fronts[d].1@[k], base, transforms),
                e,
            )
        }
}

/// The value in a slot.
spec fn slot<M>(slots: Seq<Option<M>>, b: int) -> M {
    slots[b]->0
}

spec fn above_slot<M>(parent: i64, base: Option<M>, slots: Seq<Option<M>>) -> Option<M> {
    if parent >= 0 {
        Some(slot(slots, parent as int))
    } else {
        base
    }
}

/// The bones of the fronts before `d`, and the first `k` of front `d`.
spec fn visited(fronts: Seq<(Vec<usize>, Vec<i64>)>, d: int, k: int, b: int) -> bool {
    exists|e: int, j: int|
        0 <= e < fronts.len() && 0 <= j < fronts[e].0@.len() && (e < d || (e == d && j < k))
            && #[trigger] fronts[e].0@[j] == b
}

/// Exactly the visited bones have their slots filled, each with the pose and
/// the transform that its parent gives it.
spec fn slots_ok<M, E, O: MatrixOps<M, E>>(
    ops: &O,
    fronts: Seq<(Vec<usize>, Vec<i64>)>,
    d: int,
    k: int,
    rest: Seq<M>,
    delta: Seq<M>,
    base: Option<M>,
    poses: Seq<Option<M>>,
    transforms: Seq<Option<M>>,
) -> bool {
    &&& poses.len() == rest.len()
    &&& transforms.len() == rest.len()
    &&& forall|b: int|
        0 <= b < rest.len() ==> (#[trigger] poses[b] is Some <==> visited(fronts, d, k, b))
    &&& forall|b: int|
        0 <= b < rest.len() ==> (#[trigger] transforms[b] is Some <==> visited(fronts, d, k, b))
    &&& forall|e: int, j: int|
        0 <= e < fronts.len() && 0 <= j < fronts[e].0@.len() && (e < d || (e == d && j < k))
            ==> bone_posed(
            ops,
            rest[#[trigger] fronts[e].0@[j] as int],
            delta[fronts[e].0@[j] as int],
            above_slot(fronts[e].1@[j], base, transforms),
            slot(poses, fronts[e].0@[j] as int),
            slot(transforms, fronts[e].0@[j] as int),
        )
}

proof fn lemma_parent_visited(fronts: Seq<(Vec<usize>, Vec<i64>)>, n: int, d: int, k: int, e: int, j: int)
    requires
        covering(fronts, n),
        0 <= e < fronts.len(),
        0 <= j < fronts[e].0@.len(),
        e < d || (e == d && j <= k),
        fronts[e].1@[j] != -1,
    ensures
        0 <= fronts[e].1@[j] < n,
        visited(fronts, d, k, fronts[e].1@[j] as int),
{
    assert(fronts[e].0@[j] < n);
    let p = fronts[e].1@[j];
    let x = choose|x: int|
        0 <= x < e && 0 <= p <= usize::MAX && (#[trigger] fronts[x]).0@.contains(p as usize);
    let y = choose|y: int| 0 <= y < fronts[x].0@.len() && fronts[x].0@[y] == p as usize;
    assert(fronts[x].0@[y] < n);
}

/// One more bone of front `d` is posed.
proof fn lemma_slot_filled<M, E, O: MatrixOps<M, E>>(
    ops: &O,
    fronts: Seq<(Vec<usize>, Vec<i64>)>,
    d: int,
    k: int,
    rest: Seq<M>,
    delta: Seq<M>,
    base: Option<M>,
    poses: Seq<Option<M>>,
    transforms: Seq<Option<M>>,
    pose: M,
    transform: M,
)
    requires
        covering(fronts, rest.len() as int),
        0 <= d < fronts.len(),
        0 <= k < fronts[d].0@.len(),
        slots_ok(ops, fronts, d, k, rest, delta, base, poses, transforms),
        bone_posed(
            ops,
            rest[fronts[d].0@[k] as int],
            delta[fronts[d].0@[k] as int],
            above_slot(fronts[d].1@[k], base, transforms),
            pose,
            transform,
        ),
    ensures
        slots_ok(
            ops,
            fronts,
            d,
            k + 1,
            rest,
            delta,
            base,
            poses.update(fronts[d].0@[k] as int, Some(pose)),
            transforms.update(fronts[d].0@[k] as int, Some(transform)),
        ),
{
    let n = rest.len() as int;
    let bone = fronts[d].0@[k] as int;
    let poses2 = poses.update(bone, Some(pose));
    let transforms2 = transforms.update(bone, Some(transform));
    assert(fronts[d].0@[k] < n);
    assert(!visited(fronts, d, k, bone)) by {
        if visited(fronts, d, k, bone) {
            let (e, j) = choose|e: int, j: int|
                0 <= e < fronts.len() && 0 <= j < fronts[e].0@.len() && (e < d || (e == d && j
                    < k)) && #[trigger] fronts[e].0@[j] == bone;
            assert(fronts[e].0@[j] == fronts[d].0@[k]);
        }
    }
    assert forall|b: int| visited(fronts, d, k + 1, b) <==> visited(fronts, d, k, b) || b
        == bone by {
        if visited(fronts, d, k, b) {
            let (e, j) = choose|e: int, j: int|
                0 <= e < fronts.len() && 0 <= j < fronts[e].0@.len() && (e < d || (e == d && j
                    < k)) && #[trigger] fronts[e].0@[j] == b;
            assert(fronts[e].0@[j] == b);
        }
        if b == bone {
            assert(fronts[d].0@[k] == b);
        }
        if visited(fronts, d, k + 1, b) {
            let (e, j) = choose|e: int, j: int|
                0 <= e < fronts.len() && 0 <= j < fronts[e].0@.len() && (e < d || (e == d && j < k
                    + 1)) && #[trigger] fronts[e].0@[j] == b;
            assert(fronts[e].0@[j] == b);
        }
    }
    assert forall|b: int| 0 <= b < n implies (#[trigger] poses2[b] is Some <==> visited(
        fronts,
        d,
        k + 1,
        b,
    )) by {
        assert(poses[b] is Some <==> visited(fronts, d, k, b));
    }
    assert forall|b: int| 0 <= b < n implies (#[trigger] transforms2[b] is Some <==> visited(
        fronts,
        d,
        k + 1,
        b,
    )) by {
        assert(transforms[b] is Some <==> visited(fronts, d, k, b));
    }
    assert forall|e: int, j: int|
        0 <= e < fronts.len() && 0 <= j < fronts[e].0@.len() && (e < d || (e == d && j < k
            + 1)) implies bone_posed(
        ops,
        rest[#[trigger] fronts[e].0@[j] as int],
        delta[fronts[e].0@[j] as int],
        above_slot(fronts[e].1@[j], base, transforms2),
        slot(poses2, fronts[e].0@[j] as int),
        slot(transforms2, fronts[e].0@[j] as int),
    ) by {
        let b = fronts[e].0@[j] as int;
        let p = fronts[e].1@[j];
        assert(b < n);
        if p != -1 {
            lemma_parent_visited(fronts, n, d, k, e, j);
            assert(p != bone);
        }
        assert(above_slot(p, base, transforms2) == above_slot(p, base, transforms));
        if e < d || j < k {
            assert(visited(fronts, d, k, b));
        } else {
            assert(b == bone);
        }
    }
}

/// Forward kinematics, front by front, of any number of bones.
pub(crate) fn pose_fronts<M, E, O: MatrixOps<M, E>>(
    fronts: &Vec<(Vec<usize>, Vec<i64>)>,
    rest_bone_poses: &Vec<M>,
    delta_transforms: &Vec<M>,
    base_transform: Option<&M>,
    ops: &O,
) -> (r: Result<FkOutput<M>, E>)
    requires
        rest_bone_poses@.len() == delta_transforms@.len(),
        covering(fronts@, rest_bone_poses@.len() as int),
    ensures
        match r {
            Ok(out) => forall|parents: Seq<i64>|
                parents.len() == rest_bone_poses@.len() && #[trigger] fronts_match(
                    fronts@,
                    parents,
                ) ==> all_posed(
                    ops,
                    parents,
                    rest_bone_poses@,
                    delta_transforms@,
                    match base_transform {
                        Some(b) => Some(*b),
                        None => None,
                    },
                    out.poses@,
                    out.transforms@,
                ),
            Err(e) => fronts_fail(
                ops,
                fronts@,
                rest_bone_poses@,
                delta_transforms@,
                match base_transform {
                    Some(b) => Some(*b),
                    None => None,
                },
                e,
            ),
        },
{
    let n: usize = rest_bone_poses.len();
    let ghost rest = rest_bone_poses@;
    let ghost delta = delta_transforms@;
    let ghost base: Option<M> = match base_transform {
        Some(b) => Some(*b),
        None => None,
    };
    let mut poses: Vec<Option<M>> = Vec::new();
    let mut transforms: Vec<Option<M>> = Vec::new();
    for b in 0..n
        invariant
            poses@.len() == b,
            transforms@.len() == b,
            forall|j: int| 0 <= j < b ==> #[trigger] poses@[j] is None,
            forall|j: int| 0 <= j < b ==> #[trigger] transforms@[j] is None,
    {
        poses.push(None);
        transforms.push(None);
    }
    let depth: usize = fronts.len();
    for d in 0..depth
        invariant
            depth == fronts@.len(),
            n == rest.len(),
            rest == rest_bone_poses@,
            delta == delta_transforms@,
            rest.len() == delta.len(),
            base == match base_transform {
                Some(b) => Some(*b),
                None => None::<M>,
            },
            covering(fronts@, n as int),
            slots_ok(ops, fronts@, d as int, 0, rest, delta, base, poses@, transforms@),
    {
        let width: usize = fronts[d].0.len();
        for k in 0..width
            invariant
                d < depth,
                depth == fronts@.len(),
                width == fronts@[d as int].0@.len(),
                n == rest.len(),
                rest == rest_bone_poses@,
                delta == delta_transforms@,
                rest.len() == delta.len(),
                base == match base_transform {
                    Some(b) => Some(*b),
                    None => None::<M>,
                },
                covering(fronts@, n as int),
                slots_ok(
                    ops,
                    fronts@,
                    d as int,
                    k as int,
                    rest,
                    delta,
                    base,
                    poses@,
                    transforms@,
                ),
        {
            let bone: usize = fronts[d].0[k];
            proof {
                assert(fronts@[d as int].1@.len() == fronts@[d as int].0@.len());
                assert(fronts@[d as int].0@[k as int] < n);
            }
            let parent: i64 = fronts[d].1[k];
            let posed = if parent >= 0 {
                proof {
                    lemma_parent_visited(fronts@, n as int, d as int, k as int, d as int, k as int);
                    assert(transforms@[parent as int] is Some);
                }
                match &transforms[parent as usize] {
                    Some(above) => pose_bone(
                        ops,
                        &rest_bone_poses[bone],
                        &delta_transforms[bone],
                        Some(above),
                    ),
                    None => {
                        proof {
                            assert(false);
                        }
                        pose_bone(
                            ops,
                            &rest_bone_poses[bone],
                            &delta_transforms[bone],
                            None,
                        )
                    },
                }
            } else {
                pose_bone(
                    ops,
                    &rest_bone_poses[bone],
                    &delta_transforms[bone],
                    base_transform,
                )
            };
            match posed {
                Ok((pose, transform)) => {
                    proof {
                        lemma_slot_filled(
                            ops,
                            fronts@,
                            d as int,
                            k as int,
                            rest,
                            delta,
                            base,
                            poses@,
                            transforms@,
                            pose,
                            transform,
                        );
                    }
                    poses[bone] = Some(pose);
                    transforms[bone] = Some(transform);
                },
                Err(e) => {
                    proof {
                        let all_poses = Seq::new(n as nat, |b: int| slot(poses@, b));
                        let all_transforms = Seq::new(n as nat, |b: int| slot(transforms@, b));
                        assert forall|x: int, j: int|
                            0 <= x < fronts@.len() && 0 <= j < fronts@[x].0@.len() && (x < d || (x
                                == d && j < k)) implies bone_posed(
                            ops,
                            rest[#[trigger] fronts@[x].0@[j] as int],
                            delta[fronts@[x].0@[j] as int],
                            above_bone(fronts@[x].1@[j], base, all_transforms),
                            all_poses[fronts@[x].0@[j] as int],
                            all_transforms[fronts@[x].0@[j] as int],
                        ) by {
                            assert(fronts@[x].0@[j] < n);
                            if fronts@[x].1@[j] != -1 {
                                lemma_parent_visited(
                                    fronts@,
                                    n as int,
                                    d as int,
                                    k as int,
                                    x,
                                    j,
                                );
                            }
                            assert(above_slot(fronts@[x].1@[j], base, transforms@) == above_bone(
                                fronts@[x].1@[j],
                                base,
                                all_transforms,
                            ));
                        }
                        assert(fronts_posed(
                            ops,
                            fronts@,
                            rest,
                            delta,
                            base,
                            all_poses,
                            all_transforms,
                            d as int,
                            k as int,
                        ));
                    }
                    return Err(e);
                },
            }
        }
        proof {
            assert forall|b: int| visited(fronts@, d as int, width as int, b) <==> visited(
                fronts@,
                d + 1,
                0,
                b,
            ) by {
                if visited(fronts@, d as int, width as int, b) {
                    let (e, j) = choose|e: int, j: int|
                        0 <= e < fronts@.len() && 0 <= j < fronts@[e].0@.len() && (e < d || (e == d
                            && j < width)) && #[trigger] fronts@[e].0@[j] == b;
                    assert(fronts@[e].0@[j] == b);
                }
                if visited(fronts@, d + 1, 0, b) {
                    let (e, j) = choose|e: int, j: int|
                        0 <= e < fronts@.len() && 0 <= j < fronts@[e].0@.len() && (e < d + 1 || (e
                            == d + 1 && j < 0)) && #[trigger] fronts@[e].0@[j] == b;
                    assert(fronts@[e].0@[j] == b);
                }
            }
        }
    }
    proof {
        assert forall|b: int| 0 <= b < n implies visited(fronts@, depth as int, 0, b) by {
            assert(in_some_front(fronts@, b));
            let d = choose|d: int|
                0 <= d < fronts@.len() && (#[trigger] fronts@[d]).0@.contains(b as usize);
            let k = choose|k: int| 0 <= k < fronts@[d].0@.len() && fronts@[d].0@[k] == b as usize;
            assert(fronts@[d].0@[k] == b);
        }
        assert forall|b: int| 0 <= b < n implies #[trigger] poses@[b] is Some by {
            assert(visited(fronts@, depth as int, 0, b));
        }
        assert forall|b: int| 0 <= b < n implies #[trigger] transforms@[b] is Some by {
            assert(visited(fronts@, depth as int, 0, b));
        }
    }
    let ghost poses_s = poses@;
    let ghost transforms_s = transforms@;
    let poses = unwrap_all(poses);
    let transforms = unwrap_all(transforms);
    proof {
        assert forall|parents: Seq<i64>|
            parents.len() == rest.len() && #[trigger] fronts_match(
                fronts@,
                parents,
            ) implies all_posed(
            ops,
            parents,
            rest,
            delta,
            base,
            poses@,
            transforms@,
        ) by {
            assert forall|b: int| 0 <= b < rest.len() implies bone_posed(
                ops,
                rest[b],
                delta[b],
                above_bone(parents[b], base, transforms@),
                #[trigger] poses@[b],
                transforms@[b],
            ) by {
                assert(in_some_front(fronts@, b));
                let d = choose|d: int|
                    0 <= d < fronts@.len() && (#[trigger] fronts@[d]).0@.contains(b as usize);
                let k = choose|k: int|
                    0 <= k < fronts@[d].0@.len() && fronts@[d].0@[k] == b as usize;
                assert(fronts@[d].0@[k] == b);
                assert(fronts@[d].1@[k] == parents[b]);
                if parents[b] != -1 {
                    lemma_parent_visited(fronts@, n as int, d, k, d, k);
                }
                assert(above_slot(parents[b], base, transforms_s) == above_bone(
                    parents[b],
                    base,
                    transforms@,
                ));
                assert(slot(poses_s, b) == poses@[b]);
                assert(slot(transforms_s, b) == transforms@[b]);
            }
        }
    }
    Ok(FkOutput { poses, transforms })
}

/// Forward kinematics, front by front, on matrices of type `M`. The pose of a
/// bone is the transform of its parent times its rest pose times its delta;
/// for a root the base takes the place of the parent's transform. The
/// transform of a bone is its pose times the inverse of its rest pose.
pub fn parallel_forward_kinematic<M, E, O: MatrixOps<M, E>>(
    fronts: &Vec<(Vec<usize>, Vec<i64>)>,
    rest_bone_poses: &Vec<M>,
    delta_transforms: &Vec<M>,
    base_transform: Option<&M>,
    ops: &O,
) -> (r: Result<FkOutput<M>, FkError<E>>)
    requires
        rest_bone_poses@.len() == delta_transforms@.len(),
        covering(fronts@, rest_bone_poses@.len() as int),
    ensures
        match r {
            Ok(out) => rest_bone_poses@.len() > 0 && forall|parents: Seq<i64>|
                parents.len() == rest_bone_poses@.len() && #[trigger] fronts_match(
                    fronts@,
                    parents,
                ) ==> all_posed(
                    ops,
                    parents,
                    rest_bone_poses@,
                    delta_transforms@,
                    match base_transform {
                        Some(b) => Some(*b),
                        None => None,
                    },
                    out.poses@,
                    out.transforms@,
                ),
            Err(FkError::Matrix(e)) => fronts_fail(
                ops,
                fronts@,
                rest_bone_poses@,
                delta_transforms@,
                match base_transform {
                    Some(b) => Some(*b),
                    None => None,
                },
                e,
            ),
            Err(FkError::NoBones) => rest_bone_poses@.len() == 0,
            Err(FkError::ParentCount { .. }) => false,
        },
{
    if rest_bone_poses.len() == 0 {
        return Err(FkError::NoBones);
    }
    match pose_fronts(fronts, rest_bone_poses, delta_transforms, base_transform, ops) {
        Ok(out) => Ok(out),
        Err(e) => Err(FkError::Matrix(e)),
    }
}

/// The values of slots that are all filled.
fn unwrap_all<M>(slots: Vec<Option<M>>) -> (r: Vec<M>)
    requires
        forall|b: int| 0 <= b < slots@.len() ==> #[trigger] slots@[b] is Some,
    ensures
        r@.len() == slots@.len(),
        forall|b: int| 0 <= b < slots@.len() ==> #[trigger] r@[b] == slots@[b]->0,
{
    let mut slots = slots;
    let ghost all = slots@;
    let mut r: Vec<M> = Vec::new();
    while slots.len() > 0
        invariant
            slots@.len() + r@.len() == all.len(),
            forall|b: int| 0 <= b < all.len() ==> #[trigger] all[b] is Some,
            forall|b: int| 0 <= b < slots@.len() ==> slots@[b] == all[r@.len() + b],
            forall|b: int| 0 <= b < r@.len() ==> #[trigger] r@[b] == all[b]->0,
        decreases slots@.len(),
    {
        let ghost before = slots@;
        let first = slots.remove(0);
        assert(first == all[r@.len() + 0int]);
        proof {
            assert forall|b: int| 0 <= b < slots@.len() implies slots@[b] == all[r@.len() + 1
                + b] by {
                assert(slots@[b] == before[b + 1]);
                assert(before[b + 1] == all[r@.len() + (b + 1)]);
            }
        }
        match first {
            Some(m) => r.push(m),
            None => {
                assert(false);
            },
        }
    }
    r
}

/// Forward kinematics, one bone after the other, for bones whose parents
/// stand before them.
pub fn sequential_forward_kinematic<M, E, O: MatrixOps<M, E>>(
    bone_parents: &Vec<i64>,
    rest_bone_poses: &Vec<M>,
    delta_transforms: &Vec<M>,
    ops: &O,
) -> (r: Result<FkOutput<M>, FkError<E>>)
    requires
        rest_bone_poses@.len() == delta_transforms@.len(),
        forall|i: int| 0 <= i < bone_parents@.len() ==> #[trigger] bone_parents@[i] < i,
    ensures
        match r {
            Ok(out) => rest_bone_poses@.len() > 0 && bone_parents@.len() == rest_bone_poses@.len()
                && all_posed(
                ops,
                bone_parents@,
                rest_bone_poses@,
                delta_transforms@,
                None,
                out.poses@,
                out.transforms@,
            ),
            Err(FkError::Matrix(e)) => bone_parents@.len() == rest_bone_poses@.len()
                && bones_fail(
                ops,
                bone_parents@,
                rest_bone_poses@,
                delta_transforms@,
                None,
                e,
            ),
            Err(FkError::ParentCount { parents, bones }) => parents == bone_parents@.len()
                && bones == rest_bone_poses@.len() && parents != bones,
            Err(FkError::NoBones) => rest_bone_poses@.len() == 0 && bone_parents@.len() == 0,
        },
{
    let n: usize = rest_bone_poses.len();
    if bone_parents.len() != n {
        return Err(FkError::ParentCount { parents: bone_parents.len(), bones: n });
    }
    if n == 0 {
        return Err(FkError::NoBones);
    }
    let mut poses: Vec<M> = Vec::new();
    let mut transforms: Vec<M> = Vec::new();
    for b in 0..n
        invariant
            n == rest_bone_poses@.len(),
            n == delta_transforms@.len(),
            n == bone_parents@.len(),
            forall|i: int| 0 <= i < n ==> #[trigger] bone_parents@[i] < i,
            poses@.len() == b,
            transforms@.len() == b,
            forall|i: int|
                0 <= i < b ==> bone_posed(
                    ops,
                    rest_bone_poses@[i],
                    delta_transforms@[i],
                    above_bone(bone_parents@[i], None, transforms@),
                    #[trigger] poses@[i],
                    transforms@[i],
                ),
    {
        let p: i64 = bone_parents[b];
        let above: Option<&M> = if p >= 0 {
            Some(&transforms[p as usize])
        } else {
            None
        };
        match pose_bone(ops, &rest_bone_poses[b], &delta_transforms[b], above) {
            Ok((pose, transform)) => {
                let ghost before = transforms@;
                poses.push(pose);
                transforms.push(transform);
                proof {
                    assert forall|i: int| 0 <= i < b + 1 implies bone_posed(
                        ops,
                        rest_bone_poses@[i],
                        delta_transforms@[i],
                        above_bone(bone_parents@[i], None, transforms@),
                        #[trigger] poses@[i],
                        transforms@[i],
                    ) by {
                        assert(bone_parents@[i] < i);
                        assert(above_bone(bone_parents@[i], None, transforms@) == above_bone(
                            bone_parents@[i],
                            None,
                            before,
                        ));
                    }
                }
            },
            Err(e) => {
                proof {
                    assert(first_posed(
                        ops,
                        bone_parents@,
                        rest_bone_poses@,
                        delta_transforms@,
                        None,
                        poses@,
                        transforms@,
                        b as int,
                    ));
                }
                return Err(FkError::Matrix(e));
            },
        }
    }
    Ok(FkOutput { poses, transforms })
}

// ---------------------------------------------------------------------------
// Laws of forward kinematics
// ---------------------------------------------------------------------------

/// An operation gives one result for each pair of matrices.
pub open spec fn one_product<M, E, O: MatrixOps<M, E>>(ops: &O) -> bool {
    forall|a: M, b: M, r: M, s: M| #[trigger]
        product(ops, a, b, r) && #[trigger] product(ops, a, b, s) ==> r == s
}

pub open spec fn one_inverse<M, E, O: MatrixOps<M, E>>(ops: &O) -> bool {
    forall|a: M, r: M, s: M| #[trigger]
        inverse_of(ops, a, r) && #[trigger] inverse_of(ops, a, s) ==> r == s
}

proof fn lemma_one_pose<M, E, O: MatrixOps<M, E>>(
    ops: &O,
    rest: M,
    delta: M,
    above: Option<M>,
    pose: M,
    transform: M,
    pose2: M,
    transform2: M,
)
    requires
        one_product(ops),
        one_inverse(ops),
        bone_posed(ops, rest, delta, above, pose, transform),
        bone_posed(ops, rest, delta, above, pose2, transform2),
    ensures
        pose == pose2,
        transform == transform2,
{
}

/// Where the operations on matrices are functions, the poses and transforms
/// are pinned: posing bones front by front and posing them one after the
/// other give the same.
pub proof fn law_kinematics_agree<M, E, O: MatrixOps<M, E>>(
    ops: &O,
    parents: Seq<i64>,
    rest: Seq<M>,
    delta: Seq<M>,
    base: Option<M>,
    first: FkOutput<M>,
    second: FkOutput<M>,
)
    requires
        one_product(ops),
        one_inverse(ops),
        parents.len() == rest.len(),
        forall|i: int| 0 <= i < parents.len() ==> #[trigger] parents[i] < i,
        all_posed(ops, parents, rest, delta, base, first.poses@, first.transforms@),
        all_posed(ops, parents, rest, delta, base, second.poses@, second.transforms@),
    ensures
        first.poses@ == second.poses@,
        first.transforms@ == second.transforms@,
{
    assert forall|b: int| 0 <= b < rest.len() implies first.poses@[b] == second.poses@[b]
        && first.transforms@[b] == second.transforms@[b] by {
        lemma_agree_upto(
            ops,
            parents,
            rest,
            delta,
            base,
            first.poses@,
            first.transforms@,
            second.poses@,
            second.transforms@,
            b,
        );
    }
    assert(first.poses@ =~= second.poses@);
    assert(first.transforms@ =~= second.transforms@);
}

proof fn lemma_agree_upto<M, E, O: MatrixOps<M, E>>(
    ops: &O,
    parents: Seq<i64>,
    rest: Seq<M>,
    delta: Seq<M>,
    base: Option<M>,
    poses: Seq<M>,
    transforms: Seq<M>,
    poses2: Seq<M>,
    transforms2: Seq<M>,
    b: int,
)
    requires
        one_product(ops),
        one_inverse(ops),
        parents.len() == rest.len(),
        forall|i: int| 0 <= i < parents.len() ==> #[trigger] parents[i] < i,
        all_posed(ops, parents, rest, delta, base, poses, transforms),
        all_posed(ops, parents, rest, delta, base, poses2, transforms2),
        0 <= b < rest.len(),
    ensures
        poses[b] == poses2[b],
        transforms[b] == transforms2[b],
    decreases b,
{
    if parents[b] >= 0 {
        lemma_agree_upto(
            ops,
            parents,
            rest,
            delta,
            base,
            poses,
            transforms,
            poses2,
            transforms2,
            parents[b] as int,
        );
    }
    let above = above_bone(parents[b], base, transforms);
    assert(above == above_bone(parents[b], base, transforms2));
    assert(bone_posed(ops, rest[b], delta[b], above, poses[b], transforms[b]));
    assert(bone_posed(ops, rest[b], delta[b], above, poses2[b], transforms2[b]));
    lemma_one_pose(
        ops,
        rest[b],
        delta[b],
        above,
        poses[b],
        transforms[b],
        poses2[b],
        transforms2[b],
    );
}

/// `e` is neutral for the product, and a matrix times its inverse is `e`.
pub open spec fn neutral<M, E, O: MatrixOps<M, E>>(
    ops: &O,
    e: M,
) -> bool {
    &&& forall|a: M, r: M| #[trigger] product(ops, a, e, r) ==> r == a
    &&& forall|a: M, r: M| #[trigger] product(ops, e, a, r) ==> r == a
    &&& forall|a: M, i: M, r: M| #[trigger]
        inverse_of(ops, a, i) && #[trigger] product(ops, a, i, r) ==> r == e
}

/// With neutral deltas and no base every bone keeps its rest pose, and every
/// transform is neutral.
pub proof fn law_neutral_deltas_keep_rest<M, E, O: MatrixOps<M, E>>(
    ops: &O,
    parents: Seq<i64>,
    rest: Seq<M>,
    e: M,
    out: FkOutput<M>,
    b: int,
)
    requires
        neutral(ops, e),
        parents.len() == rest.len(),
        forall|i: int| 0 <= i < parents.len() ==> #[trigger] parents[i] < i,
        all_posed(
            ops,
            parents,
            rest,
            Seq::new(rest.len(), |i: int| e),
            None,
            out.poses@,
            out.transforms@,
        ),
        0 <= b < rest.len(),
    ensures
        out.poses@[b] == rest[b],
        out.transforms@[b] == e,
    decreases b,
{
    if parents[b] >= 0 {
        law_neutral_deltas_keep_rest(ops, parents, rest, e, out, parents[b] as int);
    }
    assert(out.poses@[b] == out.poses@[b]);
    let above = above_bone(parents[b], None, out.transforms@);
    assert(bone_posed(ops, rest[b], e, above, out.poses@[b], out.transforms@[b]));
    let (t, i) = choose|t: M, i: M| #[trigger]
        product(ops, rest[b], e, t) && #[trigger] inverse_of(ops, rest[b], i) && bone_step(ops,
            above,
            t,
            i,
            out.poses@[b],
            out.transforms@[b],
        );
    assert(t == rest[b]);
    assert(product(ops, out.poses@[b], i, out.transforms@[b]));
}

} // verus!
