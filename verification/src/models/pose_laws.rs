//! Passing between parameterizations: in exact arithmetic nothing is lost.
use vstd::prelude::*;

use crate::models::pose::{
    PoseParameterization, PoseState, ResolvedParameterization, RootOps,
};

verus! {

/// Exact arithmetic of transforms, of which some are rigid.
#[verifier::reject_recursive_types(G)]
pub struct RigidArithmetic<G> {
    pub mul: spec_fn(G, G) -> G,
    pub inv: spec_fn(G) -> G,
    pub rot: spec_fn(G) -> G,
    pub world: spec_fn(G, G) -> G,
    pub e: G,
    pub rigid: spec_fn(G) -> bool,
}

pub open spec fn times<G>(g: RigidArithmetic<G>, a: G, b: G) -> G {
    (g.mul)(a, b)
}

pub open spec fn inverse<G>(g: RigidArithmetic<G>, a: G) -> G {
    (g.inv)(a)
}

/// The product is associative and has a neutral element, rigid transforms have
/// an inverse, and a world root turned by the rest rotation is the pose that
/// it was made from.
#[verifier::opaque]
pub open spec fn is_exact<G>(g: RigidArithmetic<G>) -> bool {
    &&& forall|a: G, b: G, c: G| #[trigger]
        times(g, times(g, a, b), c) == times(g, a, times(g, b, c))
    &&& forall|a: G| #[trigger] times(g, a, g.e) == a
    &&& forall|a: G| #[trigger] times(g, g.e, a) == a
    &&& forall|a: G| (g.rigid)(a) ==> times(g, a, #[trigger] inverse(g, a)) == g.e
    &&& forall|a: G| (g.rigid)(a) ==> times(g, #[trigger] inverse(g, a), a) == g.e
    &&& forall|a: G, b: G|
        (g.rigid)(b) ==> times(g, #[trigger] (g.world)(a, b), (g.rot)(b)) == a
    &&& (g.rigid)(g.e)
}

/// What a matrix stands for, and which matrices are sound.
#[verifier::reject_recursive_types(M)]
#[verifier::reject_recursive_types(G)]
pub struct Reading<M, G> {
    pub seen: spec_fn(M) -> G,
    pub sound: spec_fn(M) -> bool,
}

pub open spec fn seen<M, G>(v: Reading<M, G>, m: M) -> G {
    (v.seen)(m)
}

pub open spec fn sound<M, G>(v: Reading<M, G>, m: M) -> bool {
    (v.sound)(m)
}

/// On sound matrices the operations compute in that arithmetic, and what they
/// make is sound.
pub open spec fn computes<M, G, E, O: RootOps<M, E>>(
    ops: &O,
    g: RigidArithmetic<G>,
    v: Reading<M, G>,
) -> bool {
    &&& forall|a: M| #[trigger] sound(v, a) ==> (g.rigid)(seen(v, a))
    &&& forall|a: M, b: M, r: M| #[trigger]
        crate::kinematics::product(ops, a, b, r) && sound(v, a) && sound(v, b) ==> sound(v, r)
            && seen(v, r) == times(g, seen(v, a), seen(v, b))
    &&& forall|a: M, r: M| #[trigger]
        crate::kinematics::inverse_of(ops, a, r) && sound(v, a) ==> sound(v, r) && seen(v, r)
            == inverse(g, seen(v, a))
    &&& forall|a: M, r: M| #[trigger]
        crate::models::pose::rotation_of(ops, a, r) && sound(v, a) ==> sound(v, r) && seen(v, r)
            == (g.rot)(seen(v, a))
    &&& forall|a: M, b: M, r: M| #[trigger]
        crate::models::pose::world_root_of(ops, a, b, r) && sound(v, a) && sound(v, b) ==> sound(
            v,
            r,
        ) && seen(v, r) == (g.world)(seen(v, a), seen(v, b))
}

proof fn lemma_assoc<G>(g: RigidArithmetic<G>, a: G, b: G, c: G)
    requires
        is_exact(g),
    ensures
        times(g, times(g, a, b), c) == times(g, a, times(g, b, c)),
{
    reveal(is_exact);
}

proof fn lemma_cancel<G>(g: RigidArithmetic<G>, a: G, x: G)
    requires
        is_exact(g),
        (g.rigid)(a),
    ensures
        times(g, a, times(g, inverse(g, a), x)) == x,
        times(g, inverse(g, a), times(g, a, x)) == x,
{
    lemma_assoc(g, a, inverse(g, a), x);
    lemma_assoc(g, inverse(g, a), a, x);
    reveal(is_exact);
}

proof fn lemma_inverse_of_neutral<G>(g: RigidArithmetic<G>)
    requires
        is_exact(g),
    ensures
        inverse(g, g.e) == g.e,
{
    reveal(is_exact);
    assert(times(g, g.e, inverse(g, g.e)) == g.e);
}

proof fn lemma_neutral<G>(g: RigidArithmetic<G>, a: G)
    requires
        is_exact(g),
    ensures
        times(g, a, g.e) == a,
        times(g, g.e, a) == a,
{
    reveal(is_exact);
}

proof fn lemma_world<G>(g: RigidArithmetic<G>, a: G, b: G)
    requires
        is_exact(g),
        (g.rigid)(b),
    ensures
        times(g, (g.world)(a, b), (g.rot)(b)) == a,
{
    reveal(is_exact);
}

/// Every bone stands after its parent, where it has one; the first has none.
pub open spec fn rooted(parents: Seq<i64>) -> bool {
    &&& parents.len() > 0
    &&& forall|b: int| 0 <= b < parents.len() ==> #[trigger] parents[b] < b
}

/// The first root is treated apart from the other bones.
pub open spec fn has_base(mode: PoseParameterization) -> bool {
    mode == PoseParameterization::RootRelative || mode == PoseParameterization::RootRelativeWorld
}

/// Parameters of the one kind can be turned into those of the other: all bones
/// without a parent are treated alike, so that with several of them either both
/// kinds treat the first apart, or neither does.
pub open spec fn roots_agree(
    parents: Seq<i64>,
    mode: PoseParameterization,
    target: PoseParameterization,
) -> bool {
    ||| single_rooted(parents)
    ||| target == PoseParameterization::Absolute
    ||| has_base(mode) == has_base(target)
}

/// One root, at the start, and parents before their children.
pub open spec fn single_rooted(parents: Seq<i64>) -> bool {
    &&& parents.len() > 0
    &&& parents[0] == -1
    &&& forall|b: int| 0 < b < parents.len() ==> 0 <= #[trigger] parents[b] < b
}

/// Every matrix is sound.
pub open spec fn all_sound<M, G>(v: Reading<M, G>, ms: Seq<M>) -> bool {
    forall|b: int| 0 <= b < ms.len() ==> sound(v, #[trigger] ms[b])
}

/// What is above a bone, as a transform.
spec fn above_seen<M, G>(
    v: Reading<M, G>,
    parents: Seq<i64>,
    base: Option<M>,
    transforms: Seq<M>,
    b: int,
) -> Option<G> {
    match crate::kinematics::above_bone(parents[b], base, transforms) {
        Some(a) => Some(seen(v, a)),
        None => None,
    }
}

spec fn exact_pose<M, G>(
    g: RigidArithmetic<G>,
    v: Reading<M, G>,
    parents: Seq<i64>,
    rest: Seq<M>,
    delta: Seq<M>,
    base: Option<M>,
    transforms: Seq<M>,
    b: int,
) -> G {
    let t = times(g, seen(v, rest[b]), seen(v, delta[b]));
    match above_seen(v, parents, base, transforms, b) {
        Some(a) => times(g, a, t),
        None => t,
    }
}

spec fn exact_transform<M, G>(g: RigidArithmetic<G>, v: Reading<M, G>, rest: M, pose: M) -> G {
    times(g, seen(v, pose), inverse(g, seen(v, rest)))
}

/// The poses and transforms are those of the deltas and the base, and all of
/// them are sound.
spec fn exactly_posed<M, G>(
    g: RigidArithmetic<G>,
    v: Reading<M, G>,
    parents: Seq<i64>,
    rest: Seq<M>,
    delta: Seq<M>,
    base: Option<M>,
    poses: Seq<M>,
    transforms: Seq<M>,
) -> bool {
    &&& delta.len() == rest.len()
    &&& poses.len() == rest.len()
    &&& transforms.len() == rest.len()
    &&& all_sound(v, delta)
    &&& all_sound(v, poses)
    &&& all_sound(v, transforms)
    &&& base is Some ==> sound(v, base->0)
    &&& forall|b: int|
        0 <= b < rest.len() ==> seen(v, #[trigger] poses[b]) == exact_pose(
            g,
            v,
            parents,
            rest,
            delta,
            base,
            transforms,
            b,
        )
    &&& forall|b: int|
        0 <= b < rest.len() ==> seen(v, #[trigger] transforms[b]) == exact_transform(
            g,
            v,
            rest[b],
            poses[b],
        )
}

/// One bone: its pose and its transform are sound and exact.
proof fn lemma_bone_exact<M, G, E, O: RootOps<M, E>>(
    ops: &O,
    g: RigidArithmetic<G>,
    v: Reading<M, G>,
    parents: Seq<i64>,
    rest: Seq<M>,
    delta: Seq<M>,
    base: Option<M>,
    poses: Seq<M>,
    transforms: Seq<M>,
    b: int,
)
    requires
        computes(ops, g, v),
        rooted(parents),
        parents.len() == rest.len(),
        delta.len() == rest.len(),
        all_sound(v, rest),
        all_sound(v, delta),
        base is Some ==> sound(v, base->0),
        crate::kinematics::all_posed(ops, parents, rest, delta, base, poses, transforms),
        0 <= b < rest.len(),
    ensures
        sound(v, poses[b]),
        sound(v, transforms[b]),
        seen(v, poses[b]) == exact_pose(g, v, parents, rest, delta, base, transforms, b),
        seen(v, transforms[b]) == exact_transform(g, v, rest[b], poses[b]),
    decreases b,
{
    if parents[b] >= 0 {
        assert(parents[b] < b);
        lemma_bone_exact(
            ops,
            g,
            v,
            parents,
            rest,
            delta,
            base,
            poses,
            transforms,
            parents[b] as int,
        );
    }
    let above = crate::kinematics::above_bone(parents[b], base, transforms);
    assert(sound(v, rest[b]) && sound(v, delta[b]));
    assert(crate::kinematics::bone_posed(
        ops,
        rest[b],
        delta[b],
        above,
        poses[b],
        transforms[b],
    ));
    let (t, i) = choose|t: M, i: M| #[trigger]
        crate::kinematics::product(ops, rest[b], delta[b], t)
            && #[trigger] crate::kinematics::inverse_of(ops, rest[b], i)
            && crate::kinematics::bone_step(ops, above, t, i, poses[b], transforms[b]);
    assert(sound(v, t) && sound(v, i));
    if let Some(a) = above {
        assert(sound(v, a));
        assert(crate::kinematics::product(ops, a, t, poses[b]));
    }
    assert(sound(v, poses[b]));
    assert(crate::kinematics::product(ops, poses[b], i, transforms[b]));
}

proof fn lemma_fk_exact<M, G, E, O: RootOps<M, E>>(
    ops: &O,
    g: RigidArithmetic<G>,
    v: Reading<M, G>,
    parents: Seq<i64>,
    rest: Seq<M>,
    delta: Seq<M>,
    base: Option<M>,
    poses: Seq<M>,
    transforms: Seq<M>,
)
    requires
        computes(ops, g, v),
        rooted(parents),
        parents.len() == rest.len(),
        delta.len() == rest.len(),
        all_sound(v, rest),
        all_sound(v, delta),
        base is Some ==> sound(v, base->0),
        crate::kinematics::all_posed(ops, parents, rest, delta, base, poses, transforms),
    ensures
        exactly_posed(g, v, parents, rest, delta, base, poses, transforms),
{
    assert forall|b: int| 0 <= b < rest.len() implies sound(v, #[trigger] poses[b]) && seen(
        v,
        poses[b],
    ) == exact_pose(g, v, parents, rest, delta, base, transforms, b) by {
        lemma_bone_exact(ops, g, v, parents, rest, delta, base, poses, transforms, b);
    }
    assert forall|b: int| 0 <= b < rest.len() implies sound(v, #[trigger] transforms[b]) && seen(
        v,
        transforms[b],
    ) == exact_transform(g, v, rest[b], poses[b]) by {
        lemma_bone_exact(ops, g, v, parents, rest, delta, base, poses, transforms, b);
    }
}

proof fn lemma_absolute_exact<M, G, E, O: RootOps<M, E>>(
    ops: &O,
    g: RigidArithmetic<G>,
    v: Reading<M, G>,
    parents: Seq<i64>,
    rest: Seq<M>,
    params: Seq<M>,
    identity: M,
    r: ResolvedParameterization<M>,
)
    requires
        is_exact(g),
        computes(ops, g, v),
        rooted(parents),
        rest.len() == parents.len(),
        params.len() == rest.len(),
        all_sound(v, rest),
        all_sound(v, params),
        sound(v, identity),
        seen(v, identity) == g.e,
        crate::models::pose::is_resolved(
            ops,
            PoseParameterization::Absolute,
            parents,
            rest,
            params,
            identity,
            r,
        ),
    ensures
        exactly_posed(
            g,
            v,
            parents,
            rest,
            r.delta_transforms@,
            r.base_transform,
            params,
            r.bone_overrides->0.transforms@,
        ),
{
    let transforms = r.bone_overrides->0.transforms@;
    let delta = r.delta_transforms@;
    assert forall|b: int| 0 <= b < rest.len() implies sound(v, #[trigger] transforms[b]) && seen(
        v,
        transforms[b],
    ) == exact_transform(g, v, rest[b], params[b]) by {
        assert(crate::models::pose::transform_for(ops, rest[b], params[b], transforms[b]));
        let i = choose|i: M| #[trigger]
            crate::kinematics::inverse_of(ops, rest[b], i) && crate::kinematics::product(
                ops,
                params[b],
                i,
                transforms[b],
            );
        assert(sound(v, rest[b]) && sound(v, params[b]));
    }
    assert forall|b: int| 0 <= b < rest.len() implies sound(v, #[trigger] delta[b]) && seen(
        v,
        params[b],
    ) == exact_pose(g, v, parents, rest, delta, r.base_transform, transforms, b) by {
        let above = crate::models::pose::parent_transform(parents, transforms, identity, b);
        assert(sound(v, rest[b]) && sound(v, params[b]));
        if parents[b] >= 0 {
            assert(parents[b] < b);
        }
        assert(sound(v, above));
        assert(crate::models::pose::delta_for(ops, rest[b], above, params[b], delta[b]));
        let (i, j, k) = choose|i: M, j: M, k: M| #[trigger]
            crate::kinematics::inverse_of(ops, rest[b], i)
                && #[trigger] crate::kinematics::inverse_of(ops, above, j)
                && #[trigger] crate::kinematics::product(ops, i, j, k)
                && crate::kinematics::product(ops, k, params[b], delta[b]);
        let pose = seen(v, params[b]);
        let home = seen(v, rest[b]);
        let up = seen(v, above);
        assert(seen(v, delta[b]) == times(g, times(g, inverse(g, home), inverse(g, up)), pose));
        lemma_assoc(g, inverse(g, home), inverse(g, up), pose);
        lemma_cancel(g, home, times(g, inverse(g, up), pose));
        assert(times(g, home, seen(v, delta[b])) == times(g, inverse(g, up), pose));
        if parents[b] < 0 {
            lemma_inverse_of_neutral(g);
            lemma_neutral(g, pose);
        } else {
            lemma_cancel(g, up, pose);
        }
    }
    assert forall|b: int| 0 <= b < rest.len() implies seen(v, #[trigger] params[b]) == exact_pose(
        g,
        v,
        parents,
        rest,
        delta,
        r.base_transform,
        transforms,
        b,
    ) by {
        assert(sound(v, delta[b]));
    }
}

proof fn lemma_posed_exact<M, G, E, O: RootOps<M, E>>(
    ops: &O,
    g: RigidArithmetic<G>,
    v: Reading<M, G>,
    mode: PoseParameterization,
    parents: Seq<i64>,
    rest: Seq<M>,
    params: Seq<M>,
    identity: M,
    s: PoseState<M>,
)
    requires
        is_exact(g),
        computes(ops, g, v),
        rooted(parents),
        rest.len() == parents.len(),
        params.len() == rest.len(),
        all_sound(v, rest),
        all_sound(v, params),
        sound(v, identity),
        seen(v, identity) == g.e,
        crate::models::pose::is_posed(ops, mode, parents, rest, params, identity, s),
    ensures
        s.rest@ == rest,
        exactly_posed(g, v, parents, rest, s.delta@, s.base, s.poses@, s.transforms@),
        s.base is Some <==> has_base(mode),
        s.base is Some ==> seen(v, s.base->0) == inverse(g, seen(v, rest[0])),
{
    let r = choose|r: ResolvedParameterization<M>|
        {
            &&& #[trigger] crate::models::pose::is_resolved(
                ops,
                mode,
                parents,
                rest,
                params,
                identity,
                r,
            )
            &&& s.rest@ == rest
            &&& s.delta == r.delta_transforms
            &&& s.base == r.base_transform
            &&& match r.bone_overrides {
                Some(fk) => s.transforms == fk.transforms && s.poses == fk.poses,
                None => crate::kinematics::all_posed(
                    ops,
                    parents,
                    rest,
                    s.delta@,
                    s.base,
                    s.poses@,
                    s.transforms@,
                ),
            }
        };
    assert(sound(v, rest[0]) && sound(v, params[0]));
    if mode == PoseParameterization::Absolute {
        lemma_absolute_exact(ops, g, v, parents, rest, params, identity, r);
    } else {
        if mode == PoseParameterization::RootRelativeWorld {
            let (turn, root) = choose|turn: M, root: M| #[trigger]
                crate::models::pose::rotation_of(ops, rest[0], turn)
                    && #[trigger] crate::kinematics::product(ops, params[0], turn, root)
                    && r.delta_transforms@ == params.update(0, root);
            assert(sound(v, root));
        }
        assert(all_sound(v, s.delta@));
        lemma_fk_exact(ops, g, v, parents, rest, s.delta@, s.base, s.poses@, s.transforms@);
    }
}

proof fn lemma_exact_unique<M, G>(
    g: RigidArithmetic<G>,
    v: Reading<M, G>,
    parents: Seq<i64>,
    rest: Seq<M>,
    delta: Seq<M>,
    base: Option<M>,
    poses: Seq<M>,
    transforms: Seq<M>,
    poses2: Seq<M>,
    transforms2: Seq<M>,
    b: int,
)
    requires
        rooted(parents),
        parents.len() == rest.len(),
        exactly_posed(g, v, parents, rest, delta, base, poses, transforms),
        exactly_posed(g, v, parents, rest, delta, base, poses2, transforms2),
        0 <= b < rest.len(),
    ensures
        seen(v, poses[b]) == seen(v, poses2[b]),
        seen(v, transforms[b]) == seen(v, transforms2[b]),
    decreases b,
{
    if parents[b] >= 0 {
        assert(parents[b] < b);
        lemma_exact_unique(
            g,
            v,
            parents,
            rest,
            delta,
            base,
            poses,
            transforms,
            poses2,
            transforms2,
            parents[b] as int,
        );
    }
    assert(seen(v, poses[b]) == exact_pose(g, v, parents, rest, delta, base, transforms, b));
    assert(seen(v, poses2[b]) == exact_pose(g, v, parents, rest, delta, base, transforms2, b));
    assert(seen(v, transforms[b]) == exact_transform(g, v, rest[b], poses[b]));
    assert(seen(v, transforms2[b]) == exact_transform(g, v, rest[b], poses2[b]));
}

/// The root pose that the converted parameters lead to is the one that they
/// were made from.
proof fn lemma_root_kept<M, G, E, O: RootOps<M, E>>(
    ops: &O,
    g: RigidArithmetic<G>,
    v: Reading<M, G>,
    parents: Seq<i64>,
    s: PoseState<M>,
    target: PoseParameterization,
    params: Seq<M>,
    identity: M,
    r: ResolvedParameterization<M>,
)
    requires
        is_exact(g),
        computes(ops, g, v),
        rooted(parents),
        parents.len() == s.rest@.len(),
        all_sound(v, s.rest@),
        target != PoseParameterization::Absolute,
        single_rooted(parents) || {
            &&& s.base is Some <==> has_base(target)
            &&& s.base is Some ==> seen(v, s.base->0) == inverse(g, seen(v, s.rest@[0]))
        },
        exactly_posed(g, v, parents, s.rest@, s.delta@, s.base, s.poses@, s.transforms@),
        crate::models::pose::are_parameters(ops, s, target, params),
        crate::models::pose::is_resolved(ops, target, parents, s.rest@, params, identity, r),
    ensures
        exactly_posed(
            g,
            v,
            parents,
            s.rest@,
            r.delta_transforms@,
            r.base_transform,
            s.poses@,
            s.transforms@,
        ),
{
    let rest = s.rest@;
    let root = seen(v, rest[0]);
    let pose = seen(v, s.poses@[0]);
    let turn = seen(v, s.delta@[0]);
    let delta = r.delta_transforms@;
    assert(sound(v, rest[0]) && sound(v, s.poses@[0]) && sound(v, s.delta@[0]));
    assert(pose == exact_pose(g, v, parents, rest, s.delta@, s.base, s.transforms@, 0));
    match target {
        PoseParameterization::RestRelative => {
            if let Some(base) = s.base {
                let (i, a, b, d) = choose|i: M, a: M, b: M, d: M| #[trigger]
                    crate::kinematics::inverse_of(ops, rest[0], i)
                        && #[trigger] crate::kinematics::product(ops, i, base, a)
                        && #[trigger] crate::kinematics::product(ops, a, rest[0], b)
                        && #[trigger] crate::kinematics::product(ops, b, s.delta@[0], d)
                        && params == s.delta@.update(0, d);
                let over = seen(v, base);
                let t = times(g, root, turn);
                assert(sound(v, i) && sound(v, a) && sound(v, b) && sound(v, d));
                lemma_assoc(g, seen(v, a), root, turn);
                lemma_assoc(g, seen(v, i), over, t);
                lemma_cancel(g, root, times(g, over, t));
                assert(seen(v, d) == times(g, seen(v, i), times(g, over, t)));
                assert(times(g, root, seen(v, d)) == pose);
            }
        },
        PoseParameterization::RootRelative => {
            lemma_cancel(g, root, pose);
            assert(sound(v, r.base_transform->0));
            assert(seen(v, r.base_transform->0) == inverse(g, root));
        },
        PoseParameterization::RootRelativeWorld => {
            let w = choose|w: M| #[trigger]
                crate::models::pose::world_root_of(ops, s.poses@[0], rest[0], w) && params
                    == s.delta@.update(0, w);
            let (spin, d) = choose|spin: M, d: M| #[trigger]
                crate::models::pose::rotation_of(ops, rest[0], spin)
                    && #[trigger] crate::kinematics::product(ops, params[0], spin, d)
                    && r.delta_transforms@ == params.update(0, d);
            assert(params[0] == w);
            assert(sound(v, w) && sound(v, spin) && sound(v, d));
            lemma_world(g, pose, root);
            assert(seen(v, d) == pose);
            lemma_cancel(g, root, pose);
            assert(seen(v, r.base_transform->0) == inverse(g, root));
        },
        PoseParameterization::Absolute => {},
    }
    assert forall|b: int| 0 <= b < rest.len() implies sound(v, #[trigger] delta[b]) by {
        if b > 0 {
            assert(delta[b] == s.delta@[b]);
        }
    }
    assert forall|b: int| 0 <= b < rest.len() implies seen(v, #[trigger] s.poses@[b])
        == exact_pose(g, v, parents, rest, delta, r.base_transform, s.transforms@, b) by {
        if b > 0 {
            assert(delta[b] == s.delta@[b]);
            if single_rooted(parents) {
                assert(0 <= parents[b] < b);
            }
            assert(seen(v, s.poses@[b]) == exact_pose(
                g,
                v,
                parents,
                rest,
                s.delta@,
                s.base,
                s.transforms@,
                b,
            ));
        } else {
            lemma_assoc(g, inverse(g, root), root, seen(v, delta[0]));
            lemma_cancel(g, root, seen(v, delta[0]));
        }
    }
}

/// In exact arithmetic, parameters taken from a posed skeleton under any
/// parameterization pose it the same way again. With several roots this holds
/// where both parameterizations treat the first root apart, or neither does, and
/// of absolute poses.
pub proof fn law_parameterizations_round_trip<M, G, E, O: RootOps<M, E>>(
    ops: &O,
    g: RigidArithmetic<G>,
    v: Reading<M, G>,
    parents: Seq<i64>,
    rest: Seq<M>,
    mode: PoseParameterization,
    params: Seq<M>,
    identity: M,
    s: PoseState<M>,
    target: PoseParameterization,
    converted: Seq<M>,
    again: PoseState<M>,
    b: int,
)
    requires
        is_exact(g),
        computes(ops, g, v),
        rooted(parents),
        roots_agree(parents, mode, target),
        rest.len() == parents.len(),
        params.len() == rest.len(),
        all_sound(v, rest),
        all_sound(v, params),
        sound(v, identity),
        seen(v, identity) == g.e,
        crate::models::pose::is_posed(ops, mode, parents, rest, params, identity, s),
        crate::models::pose::are_parameters(ops, s, target, converted),
        crate::models::pose::is_posed(ops, target, parents, rest, converted, identity, again),
        0 <= b < rest.len(),
    ensures
        seen(v, again.poses@[b]) == seen(v, s.poses@[b]),
        seen(v, again.transforms@[b]) == seen(v, s.transforms@[b]),
{
    lemma_posed_exact(ops, g, v, mode, parents, rest, params, identity, s);
    assert(converted.len() == rest.len());
    let r = choose|r: ResolvedParameterization<M>|
        {
            &&& #[trigger] crate::models::pose::is_resolved(
                ops,
                target,
                parents,
                rest,
                converted,
                identity,
                r,
            )
            &&& again.rest@ == rest
            &&& again.delta == r.delta_transforms
            &&& again.base == r.base_transform
            &&& match r.bone_overrides {
                Some(fk) => again.transforms == fk.transforms && again.poses == fk.poses,
                None => crate::kinematics::all_posed(
                    ops,
                    parents,
                    rest,
                    again.delta@,
                    again.base,
                    again.poses@,
                    again.transforms@,
                ),
            }
        };
    if target == PoseParameterization::Absolute {
        assert(converted == s.poses@);
        lemma_absolute_exact(ops, g, v, parents, rest, converted, identity, r);
        assert(again.poses@[b] == s.poses@[b]);
        assert(seen(v, again.transforms@[b]) == exact_transform(g, v, rest[b], s.poses@[b]));
        assert(seen(v, s.transforms@[b]) == exact_transform(g, v, rest[b], s.poses@[b]));
    } else {
        lemma_root_kept(ops, g, v, parents, s, target, converted, identity, r);
        lemma_fk_exact(
            ops,
            g,
            v,
            parents,
            rest,
            again.delta@,
            again.base,
            again.poses@,
            again.transforms@,
        );
        lemma_exact_unique(
            g,
            v,
            parents,
            rest,
            again.delta@,
            again.base,
            s.poses@,
            s.transforms@,
            again.poses@,
            again.transforms@,
            b,
        );
    }
}

/// In exact arithmetic, forward kinematics has one outcome: however the bones are
/// walked, one after the other or front by front, each gets the same pose and the
/// same transform.
pub proof fn law_kinematics_exact<M, G, E, O: RootOps<M, E>>(
    ops: &O,
    g: RigidArithmetic<G>,
    v: Reading<M, G>,
    parents: Seq<i64>,
    rest: Seq<M>,
    delta: Seq<M>,
    base: Option<M>,
    poses: Seq<M>,
    transforms: Seq<M>,
    poses2: Seq<M>,
    transforms2: Seq<M>,
    b: int,
)
    requires
        computes(ops, g, v),
        rooted(parents),
        parents.len() == rest.len(),
        delta.len() == rest.len(),
        all_sound(v, rest),
        all_sound(v, delta),
        base is Some ==> sound(v, base->0),
        crate::kinematics::all_posed(ops, parents, rest, delta, base, poses, transforms),
        crate::kinematics::all_posed(ops, parents, rest, delta, base, poses2, transforms2),
        0 <= b < rest.len(),
    ensures
        seen(v, poses[b]) == seen(v, poses2[b]),
        seen(v, transforms[b]) == seen(v, transforms2[b]),
{
    lemma_fk_exact(ops, g, v, parents, rest, delta, base, poses, transforms);
    lemma_fk_exact(ops, g, v, parents, rest, delta, base, poses2, transforms2);
    lemma_exact_unique(
        g,
        v,
        parents,
        rest,
        delta,
        base,
        poses,
        transforms,
        poses2,
        transforms2,
        b,
    );
}

/// What parameters mean, in exact arithmetic. The transform of a bone takes its rest
/// pose to its pose. Absolute parameters are the poses. Otherwise a bone with a parent
/// has its rest pose, moved in its own frame by its parameter and then by the
/// transform of its parent; the root has its rest pose moved in its own frame, or
/// its parameter for a pose, or that after the rotation of its rest pose.
pub proof fn law_parameters_mean<M, G, E, O: RootOps<M, E>>(
    ops: &O,
    g: RigidArithmetic<G>,
    v: Reading<M, G>,
    mode: PoseParameterization,
    parents: Seq<i64>,
    rest: Seq<M>,
    params: Seq<M>,
    identity: M,
    s: PoseState<M>,
    b: int,
)
    requires
        is_exact(g),
        computes(ops, g, v),
        single_rooted(parents),
        rest.len() == parents.len(),
        params.len() == rest.len(),
        all_sound(v, rest),
        all_sound(v, params),
        sound(v, identity),
        seen(v, identity) == g.e,
        crate::models::pose::is_posed(ops, mode, parents, rest, params, identity, s),
        0 <= b < rest.len(),
    ensures
        s.rest@ == rest,
        s.delta@.len() == rest.len(),
        s.poses@.len() == rest.len(),
        s.transforms@.len() == rest.len(),
        times(g, seen(v, s.transforms@[b]), seen(v, rest[b])) == seen(v, s.poses@[b]),
        mode == PoseParameterization::Absolute ==> s.poses@[b] == params[b],
        b > 0 ==> seen(v, s.poses@[b]) == times(
            g,
            seen(v, s.transforms@[parents[b] as int]),
            times(g, seen(v, rest[b]), seen(v, s.delta@[b])),
        ),
        b > 0 && mode != PoseParameterization::Absolute ==> s.delta@[b] == params[b],
        b == 0 && mode == PoseParameterization::RestRelative ==> seen(v, s.poses@[0]) == times(
            g,
            seen(v, rest[0]),
            seen(v, params[0]),
        ),
        b == 0 && mode == PoseParameterization::RootRelative ==> seen(v, s.poses@[0]) == seen(
            v,
            params[0],
        ),
        b == 0 && mode == PoseParameterization::RootRelativeWorld ==> seen(v, s.poses@[0])
            == times(g, seen(v, params[0]), (g.rot)(seen(v, rest[0]))),
{
    lemma_posed_exact(ops, g, v, mode, parents, rest, params, identity, s);
    let r = choose|r: ResolvedParameterization<M>|
        {
            &&& #[trigger] crate::models::pose::is_resolved(
                ops,
                mode,
                parents,
                rest,
                params,
                identity,
                r,
            )
            &&& s.rest@ == rest
            &&& s.delta == r.delta_transforms
            &&& s.base == r.base_transform
            &&& match r.bone_overrides {
                Some(fk) => s.transforms == fk.transforms && s.poses == fk.poses,
                None => crate::kinematics::all_posed(
                    ops,
                    parents,
                    rest,
                    s.delta@,
                    s.base,
                    s.poses@,
                    s.transforms@,
                ),
            }
        };
    let (p, q) = (seen(v, s.poses@[b]), seen(v, rest[b]));
    assert(sound(v, rest[b]));
    assert(seen(v, s.transforms@[b]) == exact_transform(g, v, rest[b], s.poses@[b]));
    assert(times(g, times(g, p, inverse(g, q)), q) == p) by {
        lemma_assoc(g, p, inverse(g, q), q);
        lemma_neutral(g, p);
        reveal(is_exact);
    }
    assert(p == exact_pose(g, v, parents, rest, s.delta@, s.base, s.transforms@, b));
    if b == 0 {
        assert(sound(v, rest[0]) && sound(v, params[0]));
        let d = seen(v, s.delta@[0]);
        lemma_cancel(g, q, d);
        if mode == PoseParameterization::RootRelativeWorld {
            let (turn, root) = choose|turn: M, root: M| #[trigger]
                crate::models::pose::rotation_of(ops, rest[0], turn)
                    && #[trigger] crate::kinematics::product(ops, params[0], turn, root)
                    && r.delta_transforms@ == params.update(0, root);
            assert(s.delta@[0] == root);
        }
    }
}

} // verus!
