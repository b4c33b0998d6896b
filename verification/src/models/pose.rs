//! Pose parameterizations: what the pose parameters of a skeleton mean, and
//! how to pass from one meaning to another.
use vstd::prelude::*;

use crate::kinematics::{pose_fronts, FkOutput, MatrixOps};

verus! {

/// What the pose parameters stand for.
#[derive(Debug, Clone, Copy, PartialEq, Eq, Structural)]
pub enum PoseParameterization {
    /// Every parameter is relative to the rest pose.
    RestRelative,
    /// The first parameter is the absolute pose of the root; the others are
    /// relative to the rest pose.
    RootRelative,
    /// The translation of the first parameter is the absolute position of the
    /// root; its rotation is applied to the rest orientation of the root.
    RootRelativeWorld,
    /// Every parameter is an absolute pose.
    Absolute,
}

/// The operations that treat the rotation and the translation of a root
/// apart. They may fail, and nothing is taken for granted of what they return.
pub trait RootOps<M, E>: MatrixOps<M, E> {
    /// `a` without its translation.
    fn rotation_only(&self, a: &M) -> Result<M, E>;

    /// The rotation of `a` with that of `b` undone before it, and the
    /// translation of `a`.
    fn world_root(&self, a: &M, b: &M) -> Result<M, E>;
}

/// A posed skeleton: the deltas and the base that forward kinematics was
/// given, and the poses and transforms of the bones.
#[derive(Debug, Clone)]
pub struct PoseState<M> {
    pub rest: Vec<M>,
    pub delta: Vec<M>,
    pub base: Option<M>,
    pub poses: Vec<M>,
    pub transforms: Vec<M>,
}

/// The parameters as forward kinematics takes them. Where the poses are known
/// already, they are here, with the transforms.
#[derive(Debug, Clone)]
pub struct ResolvedParameterization<M> {
    pub delta_transforms: Vec<M>,
    pub base_transform: Option<M>,
    pub bone_overrides: Option<FkOutput<M>>,
}

pub open spec fn rotation_of<M, E, O: RootOps<M, E>>(ops: &O, a: M, r: M) -> bool {
    call_ensures(O::rotation_only, (ops, &a), Ok::<M, E>(r))
}

pub open spec fn world_root_of<M, E, O: RootOps<M, E>>(ops: &O, a: M, b: M, r: M) -> bool {
    call_ensures(O::world_root, (ops, &a, &b), Ok::<M, E>(r))
}

/// `a` without its translation is asked for, and refused with `e`.
pub open spec fn no_rotation<M, E, O: RootOps<M, E>>(ops: &O, a: M, e: E) -> bool {
    call_ensures(O::rotation_only, (ops, &a), Err::<M, E>(e))
}

/// The root of `a` over `b` is asked for, and refused with `e`.
pub open spec fn no_world_root<M, E, O: RootOps<M, E>>(ops: &O, a: M, b: M, e: E) -> bool {
    call_ensures(O::world_root, (ops, &a, &b), Err::<M, E>(e))
}

/// The transform that a bone's recomputed delta is taken under: that of its
/// parent, and the identity for a bone without one.
pub open spec fn parent_transform<M>(
    parents: Seq<i64>,
    transforms: Seq<M>,
    identity: M,
    b: int,
) -> M {
    if parents[b] < 0 {
        identity
    } else {
        transforms[parents[b] as int]
    }
}

/// `delta` is the delta that takes a bone, with rest pose `rest` and under
/// the transform `above`, to `pose`.
pub open spec fn delta_for<M, E, O: MatrixOps<M, E>>(
    ops: &O,
    rest: M,
    above: M,
    pose: M,
    delta: M,
) -> bool {
    exists|i: M, j: M, k: M| #[trigger]
        crate::kinematics::inverse_of(ops, rest, i) && #[trigger] crate::kinematics::inverse_of(
            ops,
            above,
            j,
        ) && #[trigger] crate::kinematics::product(ops, i, j, k)
            && crate::kinematics::product(ops, k, pose, delta)
}

/// `transform` is `pose` after `rest` undone.
pub open spec fn transform_for<M, E, O: MatrixOps<M, E>>(
    ops: &O,
    rest: M,
    pose: M,
    transform: M,
) -> bool {
    exists|i: M| #[trigger]
        crate::kinematics::inverse_of(ops, rest, i) && crate::kinematics::product(
            ops,
            pose,
            i,
            transform,
        )
}

/// Working out the delta of a bone fails with `e`, at one step, on the values that
/// the steps before it gave.
pub open spec fn delta_fails<M, E, O: MatrixOps<M, E>>(
    ops: &O,
    rest: M,
    above: M,
    pose: M,
    e: E,
) -> bool {
    ||| crate::kinematics::no_inverse(ops, rest, e)
    ||| exists|i: M| #[trigger] crate::kinematics::inverse_of(ops, rest, i) && delta_fails_after(
        ops,
        i,
        above,
        pose,
        e,
    )
}

/// The same, where the inverse of the rest pose is at hand.
pub open spec fn delta_fails_after<M, E, O: MatrixOps<M, E>>(
    ops: &O,
    i: M,
    above: M,
    pose: M,
    e: E,
) -> bool {
    ||| crate::kinematics::no_inverse(ops, above, e)
    ||| exists|j: M| #[trigger] crate::kinematics::inverse_of(ops, above, j) && {
        ||| crate::kinematics::no_product(ops, i, j, e)
        ||| exists|k: M| #[trigger]
            crate::kinematics::product(ops, i, j, k) && crate::kinematics::no_product(
                ops,
                k,
                pose,
                e,
            )
    }
}

/// Working out the transform of a bone fails with `e`.
pub open spec fn transform_fails<M, E, O: MatrixOps<M, E>>(
    ops: &O,
    rest: M,
    pose: M,
    e: E,
) -> bool {
    ||| crate::kinematics::no_inverse(ops, rest, e)
    ||| exists|i: M| #[trigger]
        crate::kinematics::inverse_of(ops, rest, i) && crate::kinematics::no_product(
            ops,
            pose,
            i,
            e,
        )
}

/// `transforms` are those of the first `n` bones.
pub open spec fn are_transforms<M, E, O: MatrixOps<M, E>>(
    ops: &O,
    rest: Seq<M>,
    poses: Seq<M>,
    transforms: Seq<M>,
    n: int,
) -> bool {
    &&& transforms.len() == n
    &&& forall|b: int|
        0 <= b < n ==> transform_for(ops, rest[b], poses[b], #[trigger] transforms[b])
}

/// `delta` are those of the first `n` bones.
pub open spec fn are_deltas<M, E, O: MatrixOps<M, E>>(
    ops: &O,
    parents: Seq<i64>,
    rest: Seq<M>,
    poses: Seq<M>,
    transforms: Seq<M>,
    identity: M,
    delta: Seq<M>,
    n: int,
) -> bool {
    &&& delta.len() == n
    &&& forall|b: int|
        0 <= b < n ==> delta_for(
            ops,
            rest[b],
            parent_transform(parents, transforms, identity, b),
            poses[b],
            #[trigger] delta[b],
        )
}

/// Some bone has no transform, and all before it have one.
pub open spec fn transforms_fail<M, E, O: MatrixOps<M, E>>(
    ops: &O,
    rest: Seq<M>,
    poses: Seq<M>,
    e: E,
) -> bool {
    exists|transforms: Seq<M>, b: int|
        0 <= b < rest.len() && #[trigger] are_transforms(ops, rest, poses, transforms, b)
            && transform_fails(ops, rest[b], poses[b], e)
}

/// Some bone has no delta, and all before it have one.
pub open spec fn deltas_fail<M, E, O: MatrixOps<M, E>>(
    ops: &O,
    parents: Seq<i64>,
    rest: Seq<M>,
    poses: Seq<M>,
    transforms: Seq<M>,
    identity: M,
    e: E,
) -> bool {
    exists|delta: Seq<M>, b: int|
        0 <= b < rest.len() && #[trigger] are_deltas(
            ops,
            parents,
            rest,
            poses,
            transforms,
            identity,
            delta,
            b,
        ) && delta_fails(
            ops,
            rest[b],
            parent_transform(parents, transforms, identity, b),
            poses[b],
            e,
        )
}

/// Working out what the parameters mean fails with `e`, at one step, on the values
/// that the steps before it gave. Parameters relative to the rest pose never fail.
pub open spec fn resolving_fails<M, E, O: RootOps<M, E>>(
    ops: &O,
    mode: PoseParameterization,
    parents: Seq<i64>,
    rest: Seq<M>,
    params: Seq<M>,
    identity: M,
    e: E,
) -> bool {
    match mode {
        PoseParameterization::RestRelative => false,
        PoseParameterization::RootRelative => crate::kinematics::no_inverse(ops, rest[0], e),
        PoseParameterization::RootRelativeWorld => {
            ||| crate::kinematics::no_inverse(ops, rest[0], e)
            ||| exists|base: M| #[trigger] crate::kinematics::inverse_of(ops, rest[0], base) && {
                ||| no_rotation(ops, rest[0], e)
                ||| exists|turn: M| #[trigger]
                    rotation_of(ops, rest[0], turn) && crate::kinematics::no_product(
                        ops,
                        params[0],
                        turn,
                        e,
                    )
            }
        },
        PoseParameterization::Absolute => {
            ||| transforms_fail(ops, rest, params, e)
            ||| exists|transforms: Seq<M>| #[trigger]
                are_transforms(ops, rest, params, transforms, rest.len() as int) && deltas_fail(
                    ops,
                    parents,
                    rest,
                    params,
                    transforms,
                    identity,
                    e,
                )
        },
    }
}

/// `r` is what the parameters mean under the given parameterization.
pub open spec fn is_resolved<M, E, O: RootOps<M, E>>(
    ops: &O,
    mode: PoseParameterization,
    parents: Seq<i64>,
    rest: Seq<M>,
    params: Seq<M>,
    identity: M,
    r: ResolvedParameterization<M>,
) -> bool {
    match mode {
        PoseParameterization::RestRelative => {
            &&& r.delta_transforms@ == params
            &&& r.base_transform is None
            &&& r.bone_overrides is None
        },
        PoseParameterization::RootRelative => {
            &&& r.delta_transforms@ == params
            &&& r.base_transform is Some
            &&& crate::kinematics::inverse_of(ops, rest[0], r.base_transform->0)
            &&& r.bone_overrides is None
        },
        PoseParameterization::RootRelativeWorld => {
            &&& exists|turn: M, root: M| #[trigger]
                rotation_of(ops, rest[0], turn) && #[trigger] crate::kinematics::product(
                    ops,
                    params[0],
                    turn,
                    root,
                ) && r.delta_transforms@ == params.update(0, root)
            &&& r.base_transform is Some
            &&& crate::kinematics::inverse_of(ops, rest[0], r.base_transform->0)
            &&& r.bone_overrides is None
        },
        PoseParameterization::Absolute => {
            &&& r.base_transform is None
            &&& r.bone_overrides is Some
            &&& r.bone_overrides->0.poses@ == params
            &&& r.bone_overrides->0.transforms@.len() == params.len()
            &&& r.delta_transforms@.len() == params.len()
            &&& forall|b: int|
                0 <= b < params.len() ==> transform_for(
                    ops,
                    rest[b],
                    params[b],
                    #[trigger] r.bone_overrides->0.transforms@[b],
                )
            &&& forall|b: int|
                0 <= b < params.len() ==> delta_for(
                    ops,
                    rest[b],
                    parent_transform(parents, r.bone_overrides->0.transforms@, identity, b),
                    params[b],
                    #[trigger] r.delta_transforms@[b],
                )
        },
    }
}

/// Works out what the parameters mean under the given parameterization.
pub fn resolve_parameterization<M, E, O: RootOps<M, E>>(
    ops: &O,
    mode: PoseParameterization,
    parents: &Vec<i64>,
    rest: &Vec<M>,
    params: Vec<M>,
    identity: &M,
) -> (r: Result<ResolvedParameterization<M>, E>)
    requires
        rest@.len() > 0,
        rest@.len() == params@.len(),
        rest@.len() == parents@.len(),
        forall|b: int| 0 <= b < parents@.len() ==> #[trigger] parents@[b] < parents@.len(),
    ensures
        match r {
            Ok(resolved) => is_resolved(
                ops,
                mode,
                parents@,
                rest@,
                params@,
                *identity,
                resolved,
            ),
            Err(e) => resolving_fails(ops, mode, parents@, rest@, params@, *identity, e),
        },
{
    match mode {
        PoseParameterization::RestRelative => Ok(
            ResolvedParameterization {
                delta_transforms: params,
                base_transform: None,
                bone_overrides: None,
            },
        ),
        PoseParameterization::RootRelative => {
            let base = match ops.invert(&rest[0]) {
                Ok(base) => base,
                Err(e) => {
                    return Err(e);
                },
            };
            Ok(
                ResolvedParameterization {
                    delta_transforms: params,
                    base_transform: Some(base),
                    bone_overrides: None,
                },
            )
        },
        PoseParameterization::RootRelativeWorld => {
            let base = match ops.invert(&rest[0]) {
                Ok(base) => base,
                Err(e) => {
                    return Err(e);
                },
            };
            assert(crate::kinematics::inverse_of(ops, rest@[0], base));
            let turn = match ops.rotation_only(&rest[0]) {
                Ok(turn) => turn,
                Err(e) => {
                    assert(no_rotation(ops, rest@[0], e));
                    return Err(e);
                },
            };
            assert(rotation_of(ops, rest@[0], turn));
            let root = match ops.compose(&params[0], &turn) {
                Ok(root) => root,
                Err(e) => {
                    assert(crate::kinematics::no_product(ops, params@[0], turn, e));
                    return Err(e);
                },
            };
            assert(crate::kinematics::product(ops, params@[0], turn, root));
            let mut delta = params;
            delta[0] = root;
            Ok(
                ResolvedParameterization {
                    delta_transforms: delta,
                    base_transform: Some(base),
                    bone_overrides: None,
                },
            )
        },
        PoseParameterization::Absolute => {
            let transforms = match transforms_from_poses(ops, rest, &params) {
                Ok(transforms) => transforms,
                Err(e) => {
                    return Err(e);
                },
            };
            let delta = match deltas_from_poses(
                ops,
                parents,
                rest,
                &params,
                &transforms,
                identity,
            ) {
                Ok(delta) => delta,
                Err(e) => {
                    return Err(e);
                },
            };
            Ok(
                ResolvedParameterization {
                    delta_transforms: delta,
                    base_transform: None,
                    bone_overrides: Some(FkOutput { poses: params, transforms }),
                },
            )
        },
    }
}

fn transforms_from_poses<M, E, O: MatrixOps<M, E>>(
    ops: &O,
    rest: &Vec<M>,
    poses: &Vec<M>,
) -> (r: Result<Vec<M>, E>)
    requires
        rest@.len() == poses@.len(),
    ensures
        match r {
            Ok(transforms) => are_transforms(
                ops,
                rest@,
                poses@,
                transforms@,
                rest@.len() as int,
            ),
            Err(e) => transforms_fail(ops, rest@, poses@, e),
        },
{
    let mut transforms: Vec<M> = Vec::new();
    for b in 0..rest.len()
        invariant
            rest@.len() == poses@.len(),
            are_transforms(ops, rest@, poses@, transforms@, b as int),
    {
        let i = match ops.invert(&rest[b]) {
            Ok(i) => i,
            Err(e) => {
                assert(transform_fails(ops, rest@[b as int], poses@[b as int], e));
                return Err(e);
            },
        };
        assert(crate::kinematics::inverse_of(ops, rest@[b as int], i));
        match ops.compose(&poses[b], &i) {
            Ok(transform) => {
                proof {
                    assert(crate::kinematics::product(ops, poses@[b as int], i, transform));
                    assert(transform_for(ops, rest@[b as int], poses@[b as int], transform));
                }
                transforms.push(transform);
            },
            Err(e) => {
                assert(crate::kinematics::no_product(ops, poses@[b as int], i, e));
                assert(transform_fails(ops, rest@[b as int], poses@[b as int], e));
                return Err(e);
            },
        }
    }
    Ok(transforms)
}

fn deltas_from_poses<M, E, O: MatrixOps<M, E>>(
    ops: &O,
    parents: &Vec<i64>,
    rest: &Vec<M>,
    poses: &Vec<M>,
    transforms: &Vec<M>,
    identity: &M,
) -> (r: Result<Vec<M>, E>)
    requires
        rest@.len() > 0,
        rest@.len() == poses@.len(),
        rest@.len() == parents@.len(),
        rest@.len() == transforms@.len(),
        forall|b: int| 0 <= b < parents@.len() ==> #[trigger] parents@[b] < parents@.len(),
    ensures
        match r {
            Ok(delta) => are_deltas(
                ops,
                parents@,
                rest@,
                poses@,
                transforms@,
                *identity,
                delta@,
                rest@.len() as int,
            ),
            Err(e) => deltas_fail(ops, parents@, rest@, poses@, transforms@, *identity, e),
        },
{
    let mut delta: Vec<M> = Vec::new();
    for b in 0..rest.len()
        invariant
            rest@.len() > 0,
            rest@.len() == poses@.len(),
            rest@.len() == parents@.len(),
            rest@.len() == transforms@.len(),
            forall|b: int| 0 <= b < parents@.len() ==> #[trigger] parents@[b] < parents@.len(),
            are_deltas(
                ops,
                parents@,
                rest@,
                poses@,
                transforms@,
                *identity,
                delta@,
                b as int,
            ),
    {
        let p: i64 = parents[b];
        let above: &M = if p < 0 {
            identity
        } else {
            &transforms[p as usize]
        };
        let ghost m = rest@[b as int];
        let ghost pose = poses@[b as int];
        assert(*above == parent_transform(parents@, transforms@, *identity, b as int));
        let i = match ops.invert(&rest[b]) {
            Ok(i) => i,
            Err(e) => {
                assert(delta_fails(ops, m, *above, pose, e));
                return Err(e);
            },
        };
        assert(crate::kinematics::inverse_of(ops, m, i));
        let j = match ops.invert(above) {
            Ok(j) => j,
            Err(e) => {
                assert(delta_fails_after(ops, i, *above, pose, e));
                assert(delta_fails(ops, m, *above, pose, e));
                return Err(e);
            },
        };
        assert(crate::kinematics::inverse_of(ops, *above, j));
        let k = match ops.compose(&i, &j) {
            Ok(k) => k,
            Err(e) => {
                assert(crate::kinematics::no_product(ops, i, j, e));
                assert(delta_fails_after(ops, i, *above, pose, e));
                assert(delta_fails(ops, m, *above, pose, e));
                return Err(e);
            },
        };
        assert(crate::kinematics::product(ops, i, j, k));
        match ops.compose(&k, &poses[b]) {
            Ok(d) => {
                proof {
                    assert(crate::kinematics::product(ops, k, pose, d));
                    assert(delta_for(ops, m, *above, pose, d));
                }
                delta.push(d);
            },
            Err(e) => {
                assert(crate::kinematics::no_product(ops, k, pose, e));
                assert(delta_fails_after(ops, i, *above, pose, e));
                assert(delta_fails(ops, m, *above, pose, e));
                return Err(e);
            },
        }
    }
    Ok(delta)
}

/// `s` is the skeleton posed by the given parameters.
pub open spec fn is_posed<M, E, O: RootOps<M, E>>(
    ops: &O,
    mode: PoseParameterization,
    parents: Seq<i64>,
    rest: Seq<M>,
    params: Seq<M>,
    identity: M,
    s: PoseState<M>,
) -> bool {
    exists|r: ResolvedParameterization<M>|
        {
            &&& #[trigger] is_resolved(ops, mode, parents, rest, params, identity, r)
            &&& s.rest@ == rest
            &&& s.delta == r.delta_transforms
            &&& s.base == r.base_transform
            &&& match r.bone_overrides {
                Some(fk) => s.transforms == fk.transforms && s.poses == fk.poses,
                None => crate::kinematics::all_posed(
                    ops,
                    parents,
                    rest,
                    s.delta@,
                    s.base,
                    s.poses@,
                    s.transforms@,
                ),
            }
        }
}

/// Posing a skeleton fails with `e`: the parameters cannot be worked out, or
/// forward kinematics fails on what they mean.
pub open spec fn posing_fails<M, E, O: RootOps<M, E>>(
    ops: &O,
    mode: PoseParameterization,
    fronts: Seq<(Vec<usize>, Vec<i64>)>,
    parents: Seq<i64>,
    rest: Seq<M>,
    params: Seq<M>,
    identity: M,
    e: E,
) -> bool {
    ||| resolving_fails(ops, mode, parents, rest, params, identity, e)
    ||| exists|r: ResolvedParameterization<M>| #[trigger]
        is_resolved(ops, mode, parents, rest, params, identity, r) && r.bone_overrides is None
            && crate::kinematics::fronts_fail(
            ops,
            fronts,
            rest,
            r.delta_transforms@,
            r.base_transform,
            e,
        )
}

/// A posed skeleton has one entry for each bone.
pub proof fn lemma_posed_lengths<M, E, O: RootOps<M, E>>(
    ops: &O,
    mode: PoseParameterization,
    parents: Seq<i64>,
    rest: Seq<M>,
    params: Seq<M>,
    identity: M,
    s: PoseState<M>,
)
    requires
        is_posed(ops, mode, parents, rest, params, identity, s),
        params.len() == rest.len(),
        rest.len() > 0,
    ensures
        s.rest@.len() == rest.len(),
        s.delta@.len() == rest.len(),
        s.poses@.len() == rest.len(),
        s.transforms@.len() == rest.len(),
{
    let r = choose|r: ResolvedParameterization<M>|
        {
            &&& #[trigger] is_resolved(ops, mode, parents, rest, params, identity, r)
            &&& s.rest@ == rest
            &&& s.delta == r.delta_transforms
            &&& s.base == r.base_transform
            &&& match r.bone_overrides {
                Some(fk) => s.transforms == fk.transforms && s.poses == fk.poses,
                None => crate::kinematics::all_posed(
                    ops,
                    parents,
                    rest,
                    s.delta@,
                    s.base,
                    s.poses@,
                    s.transforms@,
                ),
            }
        };
    assert(r.delta_transforms@.len() == params.len());
}

/// Poses a skeleton: works out what the parameters mean and, unless they are
/// the poses already, runs forward kinematics.
pub fn pose_skeleton<M, E, O: RootOps<M, E>>(
    ops: &O,
    mode: PoseParameterization,
    fronts: &Vec<(Vec<usize>, Vec<i64>)>,
    parents: &Vec<i64>,
    rest: Vec<M>,
    params: Vec<M>,
    identity: &M,
) -> (r: Result<PoseState<M>, E>)
    requires
        rest@.len() > 0,
        rest@.len() == params@.len(),
        rest@.len() == parents@.len(),
        forall|b: int| 0 <= b < parents@.len() ==> #[trigger] parents@[b] < parents@.len(),
        crate::kinematics::covering(fronts@, rest@.len() as int),
        crate::kinematics::fronts_match(fronts@, parents@),
    ensures
        match r {
            Ok(s) => is_posed(ops, mode, parents@, rest@, params@, *identity, s),
            Err(e) => posing_fails(
                ops,
                mode,
                fronts@,
                parents@,
                rest@,
                params@,
                *identity,
                e,
            ),
        },
{
    let ghost p = params@;
    let resolved = match resolve_parameterization(ops, mode, parents, &rest, params, identity) {
        Ok(resolved) => resolved,
        Err(e) => {
            return Err(e);
        },
    };
    let ghost whole = resolved;
    match resolved.bone_overrides {
        Some(FkOutput { poses, transforms }) => {
            let s = PoseState {
                rest,
                delta: resolved.delta_transforms,
                base: resolved.base_transform,
                poses,
                transforms,
            };
            proof {
                assert(is_resolved(ops, mode, parents@, rest@, p, *identity, whole));
                assert(is_posed(ops, mode, parents@, rest@, p, *identity, s));
            }
            Ok(s)
        },
        None => {
            let fk = match &resolved.base_transform {
                Some(base) => pose_fronts(
                    fronts,
                    &rest,
                    &resolved.delta_transforms,
                    Some(base),
                    ops,
                ),
                None => pose_fronts(
                    fronts,
                    &rest,
                    &resolved.delta_transforms,
                    None,
                    ops,
                ),
            };
            match fk {
                Ok(FkOutput { poses, transforms }) => {
                    let s = PoseState {
                        rest,
                        delta: resolved.delta_transforms,
                        base: resolved.base_transform,
                        poses,
                        transforms,
                    };
                    proof {
                        assert(is_resolved(ops, mode, parents@, rest@, p, *identity, whole));
                        assert(is_posed(ops, mode, parents@, rest@, p, *identity, s));
                    }
                    Ok(s)
                },
                Err(e) => {
                    assert(is_resolved(ops, mode, parents@, rest@, p, *identity, whole));
                    Err(e)
                },
            }
        },
    }
}

/// `params` are parameters that pose `s` under the given parameterization.
pub open spec fn are_parameters<M, E, O: RootOps<M, E>>(
    ops: &O,
    s: PoseState<M>,
    target: PoseParameterization,
    params: Seq<M>,
) -> bool {
    match target {
        PoseParameterization::RestRelative => match s.base {
            None => params == s.delta@,
            Some(base) => exists|i: M, a: M, b: M, root: M| #[trigger]
                crate::kinematics::inverse_of(ops, s.rest@[0], i)
                    && #[trigger] crate::kinematics::product(ops, i, base, a)
                    && #[trigger] crate::kinematics::product(ops, a, s.rest@[0], b)
                    && #[trigger] crate::kinematics::product(ops, b, s.delta@[0], root) && params
                    == s.delta@.update(0, root),
        },
        PoseParameterization::RootRelative => params == s.delta@.update(0, s.poses@[0]),
        PoseParameterization::RootRelativeWorld => exists|root: M| #[trigger]
            world_root_of(ops, s.poses@[0], s.rest@[0], root) && params == s.delta@.update(
                0,
                root,
            ),
        PoseParameterization::Absolute => params == s.poses@,
    }
}

/// Working out the parameters of a posed skeleton fails with `e`, at one step, on
/// the values that the steps before it gave.
pub open spec fn parameters_fail<M, E, O: RootOps<M, E>>(
    ops: &O,
    s: PoseState<M>,
    target: PoseParameterization,
    e: E,
) -> bool {
    match target {
        PoseParameterization::RestRelative => match s.base {
            None => false,
            Some(base) => {
                ||| crate::kinematics::no_inverse(ops, s.rest@[0], e)
                ||| exists|i: M| #[trigger]
                    crate::kinematics::inverse_of(ops, s.rest@[0], i) && root_fails(
                        ops,
                        i,
                        base,
                        s.rest@[0],
                        s.delta@[0],
                        e,
                    )
            },
        },
        PoseParameterization::RootRelative => false,
        PoseParameterization::RootRelativeWorld => no_world_root(ops, s.poses@[0], s.rest@[0], e),
        PoseParameterization::Absolute => false,
    }
}

/// The product of `i`, `base`, `rest` and `delta`, taken from the left, fails.
pub open spec fn root_fails<M, E, O: RootOps<M, E>>(
    ops: &O,
    i: M,
    base: M,
    rest: M,
    delta: M,
    e: E,
) -> bool {
    ||| crate::kinematics::no_product(ops, i, base, e)
    ||| exists|a: M| #[trigger] crate::kinematics::product(ops, i, base, a) && {
        ||| crate::kinematics::no_product(ops, a, rest, e)
        ||| exists|b: M| #[trigger]
            crate::kinematics::product(ops, a, rest, b) && crate::kinematics::no_product(
                ops,
                b,
                delta,
                e,
            )
    }
}

/// The parameters that pose a skeleton as it is, under another
/// parameterization.
pub fn pose_parameterization<M, E, O: RootOps<M, E>>(
    ops: &O,
    s: PoseState<M>,
    target: PoseParameterization,
) -> (r: Result<Vec<M>, E>)
    requires
        s.rest@.len() > 0,
        s.delta@.len() == s.rest@.len(),
        s.poses@.len() == s.rest@.len(),
    ensures
        match r {
            Ok(params) => are_parameters(ops, s, target, params@),
            Err(e) => parameters_fail(ops, s, target, e),
        },
{
    match target {
        PoseParameterization::RestRelative => match s.base {
            None => Ok(s.delta),
            Some(base) => {
                let i = match ops.invert(&s.rest[0]) {
                    Ok(i) => i,
                    Err(e) => {
                        return Err(e);
                    },
                };
                assert(crate::kinematics::inverse_of(ops, s.rest@[0], i));
                let a = match ops.compose(&i, &base) {
                    Ok(a) => a,
                    Err(e) => {
                        assert(root_fails(ops, i, base, s.rest@[0], s.delta@[0], e));
                        return Err(e);
                    },
                };
                assert(crate::kinematics::product(ops, i, base, a));
                let b = match ops.compose(&a, &s.rest[0]) {
                    Ok(b) => b,
                    Err(e) => {
                        assert(crate::kinematics::no_product(ops, a, s.rest@[0], e));
                        assert(root_fails(ops, i, base, s.rest@[0], s.delta@[0], e));
                        return Err(e);
                    },
                };
                assert(crate::kinematics::product(ops, a, s.rest@[0], b));
                let root = match ops.compose(&b, &s.delta[0]) {
                    Ok(root) => root,
                    Err(e) => {
                        assert(crate::kinematics::no_product(ops, b, s.delta@[0], e));
                        assert(root_fails(ops, i, base, s.rest@[0], s.delta@[0], e));
                        return Err(e);
                    },
                };
                assert(crate::kinematics::product(ops, b, s.delta@[0], root));
                let mut params = s.delta;
                params[0] = root;
                Ok(params)
            },
        },
        PoseParameterization::RootRelative => {
            let mut poses = s.poses;
            let root = poses.swap_remove(0);
            let mut params = s.delta;
            params[0] = root;
            Ok(params)
        },
        PoseParameterization::RootRelativeWorld => {
            let root = match ops.world_root(&s.poses[0], &s.rest[0]) {
                Ok(root) => root,
                Err(e) => {
                    return Err(e);
                },
            };
            assert(world_root_of(ops, s.poses@[0], s.rest@[0], root));
            let mut params = s.delta;
            params[0] = root;
            Ok(params)
        },
        PoseParameterization::Absolute => Ok(s.poses),
    }
}

} // verus!
