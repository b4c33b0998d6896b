//! The order of the steps of a fit: a first alignment, rounds of pose and
//! phenotype, and the search over ages.
use vstd::prelude::*;

use crate::models::pose::PoseParameterization;
use crate::scalar::Bounds;

verus! {

/// Which phenotypes a fit changes, and how far it may move them in a round
/// where that is not left to the options.
#[derive(Debug, Clone)]
pub struct Plan<T> {
    pub keys: Vec<&'static str>,
    pub most: Option<T>,
}

/// The operations of a fit. They may fail, and nothing is taken for granted
/// of what they return.
pub trait FitOps {
    type Number;
    type Pose;
    type Root;
    type Phenotype;
    type Points;
    type Body;
    type Failure;

    /// The pose in which every bone is at rest.
    fn rest_pose(&self) -> Result<Self::Pose, Self::Failure>;

    /// The body with the phenotype, in the pose.
    fn forward(
        &self,
        pose: &Self::Pose,
        phenotype: &Self::Phenotype,
        mode: PoseParameterization,
    ) -> Result<Self::Body, Self::Failure>;

    /// The pose of a body.
    fn parameters(&self, body: &Self::Body, mode: PoseParameterization) -> Result<
        Self::Pose,
        Self::Failure,
    >;

    fn vertices(&self, body: &Self::Body) -> Result<Self::Points, Self::Failure>;

    fn bone_poses(&self, body: &Self::Body) -> Result<Self::Pose, Self::Failure>;

    /// The vertices that a face uses.
    fn used(&self, points: &Self::Points) -> Result<Self::Points, Self::Failure>;

    /// The rigid transform that takes one set of points nearest to another.
    fn align(&self, from: &Self::Points, to: &Self::Points) -> Result<Self::Root, Self::Failure>;

    /// The pose with another root.
    fn with_root(&self, pose: &Self::Pose, root: &Self::Root) -> Result<Self::Pose, Self::Failure>;

    /// The bones, each moved as the vertices near it have to move.
    fn move_bones(
        &self,
        reference: &Self::Points,
        target: &Self::Points,
        bones: &Self::Pose,
    ) -> Result<Self::Pose, Self::Failure>;

    /// The pose with its rotations made exact.
    fn cleaned(&self, pose: &Self::Pose) -> Result<Self::Pose, Self::Failure>;

    /// The pose without its translations.
    fn in_place(&self, pose: &Self::Pose) -> Result<Self::Pose, Self::Failure>;

    /// The points under a rigid transform.
    fn moved(&self, points: &Self::Points, root: &Self::Root) -> Result<Self::Points, Self::Failure>;

    /// The phenotype with the keys of the plan moved toward the target.
    fn phenotype_step(
        &self,
        plan: &Plan<Self::Number>,
        pose: &Self::Pose,
        phenotype: &Self::Phenotype,
        found: &Self::Points,
        target: &Self::Points,
    ) -> Result<Self::Phenotype, Self::Failure>;
}

/// What a step gives: the value, or the failure where there is one.
pub open spec fn reply<A, E>(value: A, failure: Option<E>) -> Result<A, E> {
    match failure {
        None => Ok(value),
        Some(e) => Err(e),
    }
}

/// The values that the registration of the joints goes through.
pub struct JointSteps<O: FitOps> {
    pub bones: O::Pose,
    pub body: O::Body,
    pub raw: O::Pose,
    pub clean: O::Pose,
    pub placed: O::Pose,
    pub neutral: O::Body,
    pub from: O::Points,
    pub to: O::Points,
    pub root: O::Root,
    pub pose: O::Pose,
    pub used: O::Points,
    pub found: O::Points,
}

/// Step `k` of the registration of the joints, on the values before it: the bones
/// are moved to the target, the pose that comes of it is made exact and taken
/// back to its place, and its root is aligned with the moved body.
pub open spec fn joint_step<O: FitOps>(
    ops: &O,
    reference: O::Points,
    target: O::Points,
    bones: O::Pose,
    phenotype: O::Phenotype,
    s: JointSteps<O>,
    k: int,
    failure: Option<O::Failure>,
) -> bool {
    if k == 0 {
        call_ensures(O::move_bones, (ops, &reference, &target, &bones), reply(s.bones, failure))
    } else if k == 1 {
        call_ensures(O::forward, (ops, &s.bones, &phenotype, PoseParameterization::Absolute), reply(s.body, failure))
    } else if k == 2 {
        call_ensures(O::parameters, (ops, &s.body, PoseParameterization::RootRelativeWorld), reply(s.raw, failure))
    } else if k == 3 {
        call_ensures(O::cleaned, (ops, &s.raw), reply(s.clean, failure))
    } else if k == 4 {
        call_ensures(O::in_place, (ops, &s.clean), reply(s.placed, failure))
    } else if k == 5 {
        call_ensures(O::forward, (ops, &s.placed, &phenotype, PoseParameterization::RootRelativeWorld), reply(s.neutral, failure))
    } else if k == 6 {
        call_ensures(O::vertices, (ops, &s.neutral), reply(s.from, failure))
    } else if k == 7 {
        call_ensures(O::vertices, (ops, &s.body), reply(s.to, failure))
    } else if k == 8 {
        call_ensures(O::align, (ops, &s.from, &s.to), reply(s.root, failure))
    } else if k == 9 {
        call_ensures(O::with_root, (ops, &s.placed, &s.root), reply(s.pose, failure))
    } else if k == 10 {
        call_ensures(O::used, (ops, &s.from), reply(s.used, failure))
    } else {
        call_ensures(O::moved, (ops, &s.used, &s.root), reply(s.found, failure))
    }
}

/// The registration gets through its first `n` steps.
pub open spec fn are_joint_steps<O: FitOps>(
    ops: &O,
    reference: O::Points,
    target: O::Points,
    bones: O::Pose,
    phenotype: O::Phenotype,
    s: JointSteps<O>,
    n: int,
) -> bool {
    forall|k: int|
        0 <= k < n ==> #[trigger] joint_step(ops, reference, target, bones, phenotype, s, k, None)
}

/// `pose` is what the joints come to, and `found` where the vertices are then.
pub open spec fn is_jointwise<O: FitOps>(
    ops: &O,
    reference: O::Points,
    target: O::Points,
    bones: O::Pose,
    phenotype: O::Phenotype,
    pose: O::Pose,
    found: O::Points,
) -> bool {
    exists|s: JointSteps<O>| #[trigger]
        are_joint_steps(ops, reference, target, bones, phenotype, s, 12) && s.pose == pose
            && s.found == found
}

/// The registration fails at step `k`, after the steps before it.
pub open spec fn joint_fails_at<O: FitOps>(
    ops: &O,
    reference: O::Points,
    target: O::Points,
    bones: O::Pose,
    phenotype: O::Phenotype,
    s: JointSteps<O>,
    k: int,
    e: O::Failure,
) -> bool {
    &&& 0 <= k < 12
    &&& are_joint_steps(ops, reference, target, bones, phenotype, s, k)
    &&& joint_step(ops, reference, target, bones, phenotype, s, k, Some(e))
}

/// A step of the registration fails on the values that the steps before it
/// gave.
pub open spec fn joint_failed<O: FitOps>(
    ops: &O,
    reference: O::Points,
    target: O::Points,
    bones: O::Pose,
    phenotype: O::Phenotype,
    e: O::Failure,
) -> bool {
    exists|s: JointSteps<O>, k: int| #[trigger]
        joint_fails_at(ops, reference, target, bones, phenotype, s, k, e)
}

/// The pose that takes the joints to the target, and where the vertices are
/// then.
pub fn jointwise_registration<O: FitOps>(
    ops: &O,
    reference: &O::Points,
    target: &O::Points,
    bones: &O::Pose,
    phenotype: &O::Phenotype,
) -> (r: Result<(O::Pose, O::Points), O::Failure>)
    ensures
        match r {
            Ok(p) => is_jointwise(ops, *reference, *target, *bones, *phenotype, p.0, p.1),
            Err(e) => joint_failed(ops, *reference, *target, *bones, *phenotype, e),
        },
{
    let ghost mut s = JointSteps::<O> {
        bones: vstd::pervasive::arbitrary(),
        body: vstd::pervasive::arbitrary(),
        raw: vstd::pervasive::arbitrary(),
        clean: vstd::pervasive::arbitrary(),
        placed: vstd::pervasive::arbitrary(),
        neutral: vstd::pervasive::arbitrary(),
        from: vstd::pervasive::arbitrary(),
        to: vstd::pervasive::arbitrary(),
        root: vstd::pervasive::arbitrary(),
        pose: vstd::pervasive::arbitrary(),
        used: vstd::pervasive::arbitrary(),
        found: vstd::pervasive::arbitrary(),
    };
    let moved_bones = match ops.move_bones(reference, target, bones) {
        Ok(x) => x,
        Err(e) => {
            assert(joint_fails_at(ops, *reference, *target, *bones, *phenotype, s, 0, e));
            return Err(e);
        },
    };
    proof {
        s.bones = moved_bones;
    }
    let body = match ops.forward(&moved_bones, phenotype, PoseParameterization::Absolute) {
        Ok(x) => x,
        Err(e) => {
            assert(joint_fails_at(ops, *reference, *target, *bones, *phenotype, s, 1, e));
            return Err(e);
        },
    };
    proof {
        s.body = body;
    }
    let raw = match ops.parameters(&body, PoseParameterization::RootRelativeWorld) {
        Ok(x) => x,
        Err(e) => {
            assert(joint_fails_at(ops, *reference, *target, *bones, *phenotype, s, 2, e));
            return Err(e);
        },
    };
    proof {
        s.raw = raw;
    }
    let clean = match ops.cleaned(&raw) {
        Ok(x) => x,
        Err(e) => {
            assert(joint_fails_at(ops, *reference, *target, *bones, *phenotype, s, 3, e));
            return Err(e);
        },
    };
    proof {
        s.clean = clean;
    }
    let placed = match ops.in_place(&clean) {
        Ok(x) => x,
        Err(e) => {
            assert(joint_fails_at(ops, *reference, *target, *bones, *phenotype, s, 4, e));
            return Err(e);
        },
    };
    proof {
        s.placed = placed;
    }
    let neutral = match ops.forward(&placed, phenotype, PoseParameterization::RootRelativeWorld) {
        Ok(x) => x,
        Err(e) => {
            assert(joint_fails_at(ops, *reference, *target, *bones, *phenotype, s, 5, e));
            return Err(e);
        },
    };
    proof {
        s.neutral = neutral;
    }
    let from = match ops.vertices(&neutral) {
        Ok(x) => x,
        Err(e) => {
            assert(joint_fails_at(ops, *reference, *target, *bones, *phenotype, s, 6, e));
            return Err(e);
        },
    };
    proof {
        s.from = from;
    }
    let to = match ops.vertices(&body) {
        Ok(x) => x,
        Err(e) => {
            assert(joint_fails_at(ops, *reference, *target, *bones, *phenotype, s, 7, e));
            return Err(e);
        },
    };
    proof {
        s.to = to;
    }
    let root = match ops.align(&from, &to) {
        Ok(x) => x,
        Err(e) => {
            assert(joint_fails_at(ops, *reference, *target, *bones, *phenotype, s, 8, e));
            return Err(e);
        },
    };
    proof {
        s.root = root;
    }
    let pose = match ops.with_root(&placed, &root) {
        Ok(x) => x,
        Err(e) => {
            assert(joint_fails_at(ops, *reference, *target, *bones, *phenotype, s, 9, e));
            return Err(e);
        },
    };
    proof {
        s.pose = pose;
    }
    let used = match ops.used(&from) {
        Ok(x) => x,
        Err(e) => {
            assert(joint_fails_at(ops, *reference, *target, *bones, *phenotype, s, 10, e));
            return Err(e);
        },
    };
    proof {
        s.used = used;
    }
    let found = match ops.moved(&used, &root) {
        Ok(x) => x,
        Err(e) => {
            assert(joint_fails_at(ops, *reference, *target, *bones, *phenotype, s, 11, e));
            return Err(e);
        },
    };
    proof {
        s.found = found;
    }
    assert(are_joint_steps(ops, *reference, *target, *bones, *phenotype, s, 12));
    Ok((pose, found))
}

/// Where a fit stands between two rounds.
pub struct FitState<O: FitOps> {
    pub phenotype: O::Phenotype,
    pub body: O::Body,
}

/// The values that the first alignment goes through.
pub struct StartSteps<O: FitOps> {
    pub rest: O::Pose,
    pub first: O::Body,
    pub all: O::Points,
    pub used: O::Points,
    pub root: O::Root,
    pub pose: O::Pose,
    pub body: O::Body,
}

/// Step `k` of the first alignment, on the values before it: the body at rest is
/// aligned with the target as a whole.
pub open spec fn start_step<O: FitOps>(
    ops: &O,
    target: O::Points,
    phenotype: O::Phenotype,
    s: StartSteps<O>,
    k: int,
    failure: Option<O::Failure>,
) -> bool {
    if k == 0 {
        call_ensures(O::rest_pose, (ops,), reply(s.rest, failure))
    } else if k == 1 {
        call_ensures(O::forward, (ops, &s.rest, &phenotype, PoseParameterization::RootRelativeWorld), reply(s.first, failure))
    } else if k == 2 {
        call_ensures(O::vertices, (ops, &s.first), reply(s.all, failure))
    } else if k == 3 {
        call_ensures(O::used, (ops, &s.all), reply(s.used, failure))
    } else if k == 4 {
        call_ensures(O::align, (ops, &s.used, &target), reply(s.root, failure))
    } else if k == 5 {
        call_ensures(O::with_root, (ops, &s.rest, &s.root), reply(s.pose, failure))
    } else {
        call_ensures(O::forward, (ops, &s.pose, &phenotype, PoseParameterization::RootRelativeWorld), reply(s.body, failure))
    }
}

/// The first alignment gets through its first `n` steps.
pub open spec fn are_start_steps<O: FitOps>(
    ops: &O,
    target: O::Points,
    phenotype: O::Phenotype,
    s: StartSteps<O>,
    n: int,
) -> bool {
    forall|k: int| 0 <= k < n ==> #[trigger] start_step(ops, target, phenotype, s, k, None)
}

pub open spec fn is_start<O: FitOps>(
    ops: &O,
    target: O::Points,
    phenotype: O::Phenotype,
    state: FitState<O>,
) -> bool {
    exists|s: StartSteps<O>| #[trigger]
        are_start_steps(ops, target, phenotype, s, 7) && state.body == s.body && state.phenotype
            == phenotype
}

/// The first alignment fails at step `k`, after the steps before it.
pub open spec fn start_fails_at<O: FitOps>(
    ops: &O,
    target: O::Points,
    phenotype: O::Phenotype,
    s: StartSteps<O>,
    k: int,
    e: O::Failure,
) -> bool {
    &&& 0 <= k < 7
    &&& are_start_steps(ops, target, phenotype, s, k)
    &&& start_step(ops, target, phenotype, s, k, Some(e))
}

/// A step of the first alignment fails on the values that the steps before it
/// gave.
pub open spec fn start_failed<O: FitOps>(
    ops: &O,
    target: O::Points,
    phenotype: O::Phenotype,
    e: O::Failure,
) -> bool {
    exists|s: StartSteps<O>, k: int| #[trigger]
        start_fails_at(ops, target, phenotype, s, k, e)
}

/// The values that a round goes through.
pub struct RoundSteps<O: FitOps> {
    pub all: O::Points,
    pub used: O::Points,
    pub bones: O::Pose,
    pub pose: O::Pose,
    pub found: O::Points,
    pub phenotype: O::Phenotype,
    pub body: O::Body,
}

/// Step `k` of a round, on the values before it, where it fails with `failure` or
/// not at all: the pose is fitted to the target, then the phenotype, where there
/// is one to fit.
pub open spec fn round_step<O: FitOps>(
    ops: &O,
    target: O::Points,
    plan: Plan<O::Number>,
    before: FitState<O>,
    s: RoundSteps<O>,
    k: int,
    failure: Option<O::Failure>,
) -> bool {
    if k == 0 {
        call_ensures(O::vertices, (ops, &before.body), reply(s.all, failure))
    } else if k == 1 {
        call_ensures(O::used, (ops, &s.all), reply(s.used, failure))
    } else if k == 2 {
        call_ensures(O::bone_poses, (ops, &before.body), reply(s.bones, failure))
    } else if k == 3 {
        match failure {
            None => is_jointwise(
                ops,
                s.used,
                target,
                s.bones,
                before.phenotype,
                s.pose,
                s.found,
            ),
            Some(e) => joint_failed(ops, s.used, target, s.bones, before.phenotype, e),
        }
    } else if k == 4 {
        if plan.keys@.len() > 0 {
            call_ensures(
                O::phenotype_step,
                (ops, &plan, &s.pose, &before.phenotype, &s.found, &target),
                reply(s.phenotype, failure),
            )
        } else {
            failure is None && s.phenotype == before.phenotype
        }
    } else {
        call_ensures(
            O::forward,
            (ops, &s.pose, &s.phenotype, PoseParameterization::RootRelativeWorld),
            reply(s.body, failure),
        )
    }
}

/// A round gets through its first `n` steps.
pub open spec fn are_round_steps<O: FitOps>(
    ops: &O,
    target: O::Points,
    plan: Plan<O::Number>,
    before: FitState<O>,
    s: RoundSteps<O>,
    n: int,
) -> bool {
    forall|k: int| 0 <= k < n ==> #[trigger] round_step(ops, target, plan, before, s, k, None)
}

pub open spec fn is_round<O: FitOps>(
    ops: &O,
    target: O::Points,
    plan: Plan<O::Number>,
    before: FitState<O>,
    after: FitState<O>,
) -> bool {
    exists|s: RoundSteps<O>| #[trigger]
        are_round_steps(ops, target, plan, before, s, 6) && after.phenotype == s.phenotype
            && after.body == s.body
}

/// A round fails at step `k`, after the steps before it.
pub open spec fn round_fails_at<O: FitOps>(
    ops: &O,
    target: O::Points,
    plan: Plan<O::Number>,
    before: FitState<O>,
    s: RoundSteps<O>,
    k: int,
    e: O::Failure,
) -> bool {
    &&& 0 <= k < 6
    &&& are_round_steps(ops, target, plan, before, s, k)
    &&& round_step(ops, target, plan, before, s, k, Some(e))
}

/// A step of a round fails on the values that the steps before it gave.
pub open spec fn round_failed<O: FitOps>(
    ops: &O,
    target: O::Points,
    plan: Plan<O::Number>,
    before: FitState<O>,
    e: O::Failure,
) -> bool {
    exists|s: RoundSteps<O>, k: int| #[trigger]
        round_fails_at(ops, target, plan, before, s, k, e)
}

/// `after` is where `n` rounds lead from `before`.
pub open spec fn are_rounds<O: FitOps>(
    ops: &O,
    target: O::Points,
    plan: Plan<O::Number>,
    n: nat,
    before: FitState<O>,
    after: FitState<O>,
) -> bool
    decreases n,
{
    if n == 0 {
        after == before
    } else {
        exists|middle: FitState<O>|
            are_rounds(ops, target, plan, (n - 1) as nat, before, middle) && #[trigger] is_round(
                ops,
                target,
                plan,
                middle,
                after,
            )
    }
}

/// A fitted body.
pub struct FitResult<P, F, V> {
    pub pose_parameters: P,
    pub phenotype: F,
    pub vertices: V,
}

/// `r` is what the fit comes to: the vertices of the target that count are
/// taken, then come the alignment, the rounds, and the pose in the
/// parameterization that was asked for.
pub open spec fn is_fit<O: FitOps>(
    ops: &O,
    target: O::Points,
    phenotype: O::Phenotype,
    plan: Plan<O::Number>,
    rounds: nat,
    mode: PoseParameterization,
    r: FitResult<O::Pose, O::Phenotype, O::Points>,
) -> bool {
    exists|wanted: O::Points, start: FitState<O>, end: FitState<O>|
        {
            &&& #[trigger] reaches(ops, target, phenotype, plan, rounds, wanted, start, end)
            &&& call_ensures(
                O::parameters,
                (ops, &end.body, mode),
                Ok::<O::Pose, O::Failure>(r.pose_parameters),
            )
            &&& call_ensures(
                O::vertices,
                (ops, &end.body),
                Ok::<O::Points, O::Failure>(r.vertices),
            )
            &&& r.phenotype == end.phenotype
        }
}

/// The alignment gives `start`, and `n` rounds lead from there to `end`.
pub open spec fn reaches<O: FitOps>(
    ops: &O,
    target: O::Points,
    phenotype: O::Phenotype,
    plan: Plan<O::Number>,
    n: nat,
    wanted: O::Points,
    start: FitState<O>,
    end: FitState<O>,
) -> bool {
    &&& call_ensures(O::used, (ops, &target), Ok::<O::Points, O::Failure>(wanted))
    &&& is_start(ops, wanted, phenotype, start)
    &&& are_rounds(ops, wanted, plan, n, start, end)
}

/// A round fails after `n` others.
pub open spec fn fails_after<O: FitOps>(
    ops: &O,
    target: O::Points,
    phenotype: O::Phenotype,
    plan: Plan<O::Number>,
    n: nat,
    wanted: O::Points,
    start: FitState<O>,
    middle: FitState<O>,
    e: O::Failure,
) -> bool {
    &&& reaches(ops, target, phenotype, plan, n, wanted, start, middle)
    &&& round_failed(ops, wanted, plan, middle, e)
}

/// A fit fails: at the vertices of the target, in the alignment, in a round
/// after others that went through, or where the last body is read out.
pub open spec fn fit_failed<O: FitOps>(
    ops: &O,
    target: O::Points,
    phenotype: O::Phenotype,
    plan: Plan<O::Number>,
    rounds: nat,
    mode: PoseParameterization,
    e: O::Failure,
) -> bool {
    ||| call_ensures(O::used, (ops, &target), Err::<O::Points, O::Failure>(e))
    ||| exists|wanted: O::Points|
        call_ensures(O::used, (ops, &target), Ok::<O::Points, O::Failure>(wanted))
            && #[trigger] start_failed(ops, wanted, phenotype, e)
    ||| exists|n: nat, wanted: O::Points, start: FitState<O>, middle: FitState<O>|
        n < rounds && #[trigger] fails_after(
            ops,
            target,
            phenotype,
            plan,
            n,
            wanted,
            start,
            middle,
            e,
        )
    ||| exists|wanted: O::Points, start: FitState<O>, end: FitState<O>| #[trigger]
        reaches(ops, target, phenotype, plan, rounds, wanted, start, end) && {
            ||| call_ensures(O::parameters, (ops, &end.body, mode), Err::<O::Pose, O::Failure>(e))
            ||| call_ensures(O::vertices, (ops, &end.body), Err::<O::Points, O::Failure>(e))
        }
}

fn start<O: FitOps>(ops: &O, target: &O::Points, phenotype: O::Phenotype) -> (r: Result<
    FitState<O>,
    O::Failure,
>)
    ensures
        match r {
            Ok(state) => is_start(ops, *target, phenotype, state),
            Err(e) => start_failed(ops, *target, phenotype, e),
        },
{
    let ghost mut s = StartSteps::<O> {
        rest: vstd::pervasive::arbitrary(),
        first: vstd::pervasive::arbitrary(),
        all: vstd::pervasive::arbitrary(),
        used: vstd::pervasive::arbitrary(),
        root: vstd::pervasive::arbitrary(),
        pose: vstd::pervasive::arbitrary(),
        body: vstd::pervasive::arbitrary(),
    };
    let rest = match ops.rest_pose() {
        Ok(x) => x,
        Err(e) => {
            assert(start_fails_at(ops, *target, phenotype, s, 0, e));
            return Err(e);
        },
    };
    proof {
        s.rest = rest;
    }
    let first = match ops.forward(&rest, &phenotype, PoseParameterization::RootRelativeWorld) {
        Ok(x) => x,
        Err(e) => {
            assert(start_fails_at(ops, *target, phenotype, s, 1, e));
            return Err(e);
        },
    };
    proof {
        s.first = first;
    }
    let all = match ops.vertices(&first) {
        Ok(x) => x,
        Err(e) => {
            assert(start_fails_at(ops, *target, phenotype, s, 2, e));
            return Err(e);
        },
    };
    proof {
        s.all = all;
    }
    let used = match ops.used(&all) {
        Ok(x) => x,
        Err(e) => {
            assert(start_fails_at(ops, *target, phenotype, s, 3, e));
            return Err(e);
        },
    };
    proof {
        s.used = used;
    }
    let root = match ops.align(&used, target) {
        Ok(x) => x,
        Err(e) => {
            assert(start_fails_at(ops, *target, phenotype, s, 4, e));
            return Err(e);
        },
    };
    proof {
        s.root = root;
    }
    let pose = match ops.with_root(&rest, &root) {
        Ok(x) => x,
        Err(e) => {
            assert(start_fails_at(ops, *target, phenotype, s, 5, e));
            return Err(e);
        },
    };
    proof {
        s.pose = pose;
    }
    let body = match ops.forward(&pose, &phenotype, PoseParameterization::RootRelativeWorld) {
        Ok(x) => x,
        Err(e) => {
            assert(start_fails_at(ops, *target, phenotype, s, 6, e));
            return Err(e);
        },
    };
    proof {
        s.body = body;
    }
    let state = FitState { phenotype, body };
    assert(are_start_steps(ops, *target, phenotype, s, 7));
    Ok(state)
}

fn round<O: FitOps>(
    ops: &O,
    target: &O::Points,
    plan: &Plan<O::Number>,
    state: FitState<O>,
) -> (r: Result<FitState<O>, O::Failure>)
    ensures
        match r {
            Ok(after) => is_round(ops, *target, *plan, state, after),
            Err(e) => round_failed(ops, *target, *plan, state, e),
        },
{
    let ghost before = state;
    let ghost mut s = RoundSteps::<O> {
        all: vstd::pervasive::arbitrary(),
        used: vstd::pervasive::arbitrary(),
        bones: vstd::pervasive::arbitrary(),
        pose: vstd::pervasive::arbitrary(),
        found: vstd::pervasive::arbitrary(),
        phenotype: vstd::pervasive::arbitrary(),
        body: vstd::pervasive::arbitrary(),
    };
    let all = match ops.vertices(&state.body) {
        Ok(x) => x,
        Err(e) => {
            assert(round_fails_at(ops, *target, *plan, before, s, 0, e));
            return Err(e);
        },
    };
    proof {
        s.all = all;
    }
    let used = match ops.used(&all) {
        Ok(x) => x,
        Err(e) => {
            assert(round_fails_at(ops, *target, *plan, before, s, 1, e));
            return Err(e);
        },
    };
    proof {
        s.used = used;
    }
    let bones = match ops.bone_poses(&state.body) {
        Ok(x) => x,
        Err(e) => {
            assert(round_fails_at(ops, *target, *plan, before, s, 2, e));
            return Err(e);
        },
    };
    proof {
        s.bones = bones;
    }
    let (pose, found) = match jointwise_registration(ops, &used, target, &bones, &state.phenotype) {
        Ok(x) => x,
        Err(e) => {
            assert(round_fails_at(ops, *target, *plan, before, s, 3, e));
            return Err(e);
        },
    };
    proof {
        s.pose = pose;
        s.found = found;
    }
    let phenotype = if plan.keys.len() > 0 {
        match ops.phenotype_step(plan, &pose, &state.phenotype, &found, target) {
            Ok(x) => x,
            Err(e) => {
                assert(round_fails_at(ops, *target, *plan, before, s, 4, e));
                return Err(e);
            },
        }
    } else {
        state.phenotype
    };
    proof {
        s.phenotype = phenotype;
    }
    let body = match ops.forward(&pose, &phenotype, PoseParameterization::RootRelativeWorld) {
        Ok(x) => x,
        Err(e) => {
            assert(round_fails_at(ops, *target, *plan, before, s, 5, e));
            return Err(e);
        },
    };
    proof {
        s.body = body;
    }
    assert(are_round_steps(ops, *target, *plan, before, s, 6));
    Ok(FitState { phenotype, body })
}

/// Fits pose and phenotype to the target: a first alignment as a whole, then
/// `rounds` rounds of pose and phenotype. The pose comes in the
/// parameterization `mode`.
pub fn fit<O: FitOps>(
    ops: &O,
    target: &O::Points,
    phenotype: O::Phenotype,
    plan: &Plan<O::Number>,
    rounds: usize,
    mode: PoseParameterization,
) -> (r: Result<FitResult<O::Pose, O::Phenotype, O::Points>, O::Failure>)
    ensures
        match r {
            Ok(f) => is_fit(ops, *target, phenotype, *plan, rounds as nat, mode, f),
            Err(e) => fit_failed(ops, *target, phenotype, *plan, rounds as nat, mode, e),
        },
{
    let wanted = match ops.used(target) {
        Ok(x) => x,
        Err(e) => {
            return Err(e);
        },
    };
    let mut state = match start(ops, &wanted, phenotype) {
        Ok(x) => x,
        Err(e) => {
            assert(start_failed(ops, wanted, phenotype, e));
            return Err(e);
        },
    };
    let ghost first = state;
    for i in 0..rounds
        invariant
            reaches(ops, *target, phenotype, *plan, i as nat, wanted, first, state),
    {
        let ghost middle = state;
        state = match round(ops, &wanted, plan, state) {
            Ok(x) => x,
            Err(e) => {
                assert(fails_after(
                    ops,
                    *target,
                    phenotype,
                    *plan,
                    i as nat,
                    wanted,
                    first,
                    middle,
                    e,
                ));
                return Err(e);
            },
        };
        assert(is_round(ops, wanted, *plan, middle, state));
    }
    let ghost end = state;
    assert(reaches(ops, *target, phenotype, *plan, rounds as nat, wanted, first, end));
    let pose_parameters = match ops.parameters(&state.body, mode) {
        Ok(x) => x,
        Err(e) => {
            return Err(e);
        },
    };
    let vertices = match ops.vertices(&state.body) {
        Ok(x) => x,
        Err(e) => {
            return Err(e);
        },
    };
    Ok(FitResult { pose_parameters, phenotype: state.phenotype, vertices })
}

/// Without a phenotype to fit, the phenotype is left as it was.
pub proof fn law_no_keys_no_change<O: FitOps>(
    ops: &O,
    target: O::Points,
    plan: Plan<O::Number>,
    n: nat,
    before: FitState<O>,
    after: FitState<O>,
)
    requires
        plan.keys@.len() == 0,
        are_rounds(ops, target, plan, n, before, after),
    ensures
        after.phenotype == before.phenotype,
    decreases n,
{
    if n > 0 {
        let middle = choose|middle: FitState<O>|
            are_rounds(ops, target, plan, (n - 1) as nat, before, middle) && #[trigger] is_round(
                ops,
                target,
                plan,
                middle,
                after,
            );
        law_no_keys_no_change(ops, target, plan, (n - 1) as nat, before, middle);
        let s = choose|s: RoundSteps<O>| #[trigger]
            are_round_steps(ops, target, plan, middle, s, 6) && after.phenotype == s.phenotype
                && after.body == s.body;
        assert(round_step(ops, target, plan, middle, s, 4, None));
    }
}

// ---------------------------------------------------------------------------
// Search over ages
// ---------------------------------------------------------------------------

/// The errors of element `b`, one for each anchor.
pub open spec fn errors_of<T>(errors: Seq<Vec<T>>, b: int) -> Seq<T> {
    Seq::new(errors.len(), |a: int| errors[a]@[b])
}

/// The age and the height of element `b` are those of the anchor that stands
/// after all errors were offered, or the ones to start from if none does.
pub open spec fn is_best<T, O: Bounds<T>>(
    ops: &O,
    far: T,
    anchors: Seq<T>,
    errors: Seq<Vec<T>>,
    heights: Seq<Vec<T>>,
    no_age: T,
    no_height: T,
    b: int,
    age: T,
    height: T,
) -> bool {
    exists|k: int| #[trigger]
        crate::utils::mesh::is_standing(ops, far, errors_of(errors, b), errors.len(), k) && {
            &&& age == if k < 0 {
                no_age
            } else {
                anchors[k]
            }
            &&& height == if k < 0 {
                no_height
            } else {
                heights[k]@[b]
            }
        }
}

/// For each element of the batch the age whose fit has the least error, and
/// the height that the fit came to. `errors` and `heights` have a row for each
/// anchor. An error counts if it is less than `far` and than those before.
pub fn best_anchors<T: Copy, O: Bounds<T>>(
    anchors: &Vec<T>,
    errors: &Vec<Vec<T>>,
    heights: &Vec<Vec<T>>,
    batch: usize,
    far: T,
    no_age: T,
    no_height: T,
    ops: &O,
) -> (r: (Vec<T>, Vec<T>))
    requires
        errors@.len() == anchors@.len(),
        heights@.len() == anchors@.len(),
        forall|a: int| 0 <= a < errors@.len() ==> (#[trigger] errors@[a])@.len() >= batch,
        forall|a: int| 0 <= a < heights@.len() ==> (#[trigger] heights@[a])@.len() >= batch,
    ensures
        r.0@.len() == batch,
        r.1@.len() == batch,
        forall|b: int|
            0 <= b < batch ==> is_best(
                ops,
                far,
                anchors@,
                errors@,
                heights@,
                no_age,
                no_height,
                b,
                #[trigger] r.0@[b],
                r.1@[b],
            ),
{
    let mut ages: Vec<T> = Vec::new();
    let mut tall: Vec<T> = Vec::new();
    for b in 0..batch
        invariant
            errors@.len() == anchors@.len(),
            heights@.len() == anchors@.len(),
            forall|a: int| 0 <= a < errors@.len() ==> (#[trigger] errors@[a])@.len() >= batch,
            forall|a: int| 0 <= a < heights@.len() ==> (#[trigger] heights@[a])@.len() >= batch,
            ages@.len() == b,
            tall@.len() == b,
            forall|d: int|
                0 <= d < b ==> is_best(
                    ops,
                    far,
                    anchors@,
                    errors@,
                    heights@,
                    no_age,
                    no_height,
                    d,
                    #[trigger] ages@[d],
                    tall@[d],
                ),
    {
        let ghost values = errors_of(errors@, b as int);
        let ghost mut k: int = -1;
        let mut best = far;
        let mut age = no_age;
        let mut height = no_height;
        for a in 0..anchors.len()
            invariant
                b < batch,
                errors@.len() == anchors@.len(),
                heights@.len() == anchors@.len(),
                forall|a: int| 0 <= a < errors@.len() ==> (#[trigger] errors@[a])@.len() >= batch,
                forall|a: int|
                    0 <= a < heights@.len() ==> (#[trigger] heights@[a])@.len() >= batch,
                values == errors_of(errors@, b as int),
                crate::utils::mesh::is_standing(ops, far, values, a as nat, k),
                best == crate::utils::mesh::standing(values, far, k),
                k < a,
                age == if k < 0 {
                    no_age
                } else {
                    anchors@[k]
                },
                height == if k < 0 {
                    no_height
                } else {
                    heights@[k]@[b as int]
                },
        {
            assert(errors@[a as int]@.len() >= batch);
            assert(heights@[a as int]@.len() >= batch);
            let e = errors[a][b];
            assert(e == values[a as int]);
            let ghost before = k;
            if ops.less(e, best) {
                best = e;
                age = anchors[a];
                height = heights[a][b];
                proof {
                    assert(crate::scalar::says_less(
                        ops,
                        values[a as int],
                        crate::utils::mesh::standing(values, far, before),
                        true,
                    ));
                    k = a as int;
                }
            }
        }
        assert(crate::utils::mesh::is_standing(ops, far, values, errors@.len(), k));
        ages.push(age);
        tall.push(height);
    }
    (ages, tall)
}

/// The operations of a search over ages, beside those of a fit. They may
/// fail, and nothing is taken for granted of what they return.
pub trait AnchorOps<T>: FitOps + Bounds<T> {
    /// The phenotype that a fit at one age starts from.
    fn at_age(&self, age: T) -> Result<Self::Phenotype, Self::Failure>;

    /// The phenotype that the last fit starts from.
    fn at_ages(&self, ages: &Vec<T>, heights: &Vec<T>) -> Result<Self::Phenotype, Self::Failure>;

    /// How far the vertices are from the target, and the height that the fit
    /// came to, for each element of a batch of the given size.
    fn judged(
        &self,
        fit: &FitResult<Self::Pose, Self::Phenotype, Self::Points>,
        target: &Self::Points,
        batch: usize,
    ) -> Result<Judged<T>, Self::Failure>;
}

/// The errors and heights of a fit.
pub struct Judged<T> {
    pub errors: Vec<T>,
    pub heights: Vec<T>,
}

/// Why a search over ages stopped.
#[derive(Debug, Clone)]
pub enum SearchError<E> {
    /// A fit was judged for fewer elements than the batch has.
    Batch,
    Step(E),
}

/// The errors and heights are those of a fit at the age.
pub open spec fn is_trial<T, O: AnchorOps<T>>(
    ops: &O,
    target: O::Points,
    plan: Plan<O::Number>,
    rounds: nat,
    mode: PoseParameterization,
    batch: usize,
    age: T,
    errors: Vec<T>,
    heights: Vec<T>,
) -> bool {
    exists|phenotype: O::Phenotype, f: FitResult<O::Pose, O::Phenotype, O::Points>|
        {
            &&& #[trigger] call_ensures(
                O::at_age,
                (ops, age),
                Ok::<O::Phenotype, O::Failure>(phenotype),
            )
            &&& #[trigger] is_fit(ops, target, phenotype, plan, rounds, mode, f)
            &&& call_ensures(
                O::judged,
                (ops, &f, &target, batch),
                Ok::<Judged<T>, O::Failure>(Judged { errors, heights }),
            )
        }
}

/// For each element of a batch the age whose trial has the least error, and
/// the height that the trial came to.
pub struct BestAnchors<T> {
    pub ages: Vec<T>,
    pub heights: Vec<T>,
}

/// `best` are the ages and heights of one trial for each anchor.
pub open spec fn are_best<T, O: AnchorOps<T>>(
    ops: &O,
    target: O::Points,
    anchors: Seq<T>,
    trial: Plan<O::Number>,
    rounds: nat,
    mode: PoseParameterization,
    batch: usize,
    far: T,
    no_age: T,
    no_height: T,
    best: BestAnchors<T>,
) -> bool {
    exists|errors: Seq<Vec<T>>, heights: Seq<Vec<T>>|
        {
            &&& #[trigger] are_trials(
                ops,
                target,
                trial,
                rounds,
                mode,
                batch,
                anchors,
                errors,
                heights,
            )
            &&& best.ages@.len() == batch
            &&& best.heights@.len() == batch
            &&& forall|b: int|
                0 <= b < batch ==> is_best(
                    ops,
                    far,
                    anchors,
                    errors,
                    heights,
                    no_age,
                    no_height,
                    b,
                    #[trigger] best.ages@[b],
                    best.heights@[b],
                )
        }
}

/// `r` is the last fit of a search, from the best ages and heights.
pub open spec fn is_last<T, O: AnchorOps<T>>(
    ops: &O,
    target: O::Points,
    plan: Plan<O::Number>,
    rounds: nat,
    mode: PoseParameterization,
    best: BestAnchors<T>,
    r: FitResult<O::Pose, O::Phenotype, O::Points>,
) -> bool {
    exists|phenotype: O::Phenotype| #[trigger]
        call_ensures(
            O::at_ages,
            (ops, &best.ages, &best.heights),
            Ok::<O::Phenotype, O::Failure>(phenotype),
        ) && is_fit(ops, target, phenotype, plan, rounds, mode, r)
}

/// `r` is what a search comes to: one trial for each anchor, the best age and
/// height for each element, and a fit that starts from those.
pub open spec fn is_search<T, O: AnchorOps<T>>(
    ops: &O,
    target: O::Points,
    anchors: Seq<T>,
    trial: Plan<O::Number>,
    last: Plan<O::Number>,
    rounds: nat,
    mode: PoseParameterization,
    batch: usize,
    far: T,
    no_age: T,
    no_height: T,
    r: FitResult<O::Pose, O::Phenotype, O::Points>,
) -> bool {
    exists|best: BestAnchors<T>|
        {
            &&& #[trigger] are_best(
                ops,
                target,
                anchors,
                trial,
                rounds,
                mode,
                batch,
                far,
                no_age,
                no_height,
                best,
            )
            &&& is_last(ops, target, last, rounds, mode, best, r)
        }
}

/// One trial for each anchor.
pub open spec fn are_trials<T, O: AnchorOps<T>>(
    ops: &O,
    target: O::Points,
    plan: Plan<O::Number>,
    rounds: nat,
    mode: PoseParameterization,
    batch: usize,
    anchors: Seq<T>,
    errors: Seq<Vec<T>>,
    heights: Seq<Vec<T>>,
) -> bool {
    &&& errors.len() == anchors.len()
    &&& heights.len() == anchors.len()
    &&& forall|a: int|
        0 <= a < anchors.len() ==> is_trial(
            ops,
            target,
            plan,
            rounds,
            mode,
            batch,
            anchors[a],
            #[trigger] errors[a],
            heights[a],
        )
}

/// The trial at an age fails: where it starts from, in its fit, or where that
/// is judged.
pub open spec fn trial_failed<T, O: AnchorOps<T>>(
    ops: &O,
    target: O::Points,
    plan: Plan<O::Number>,
    rounds: nat,
    mode: PoseParameterization,
    batch: usize,
    age: T,
    e: O::Failure,
) -> bool {
    ||| call_ensures(O::at_age, (ops, age), Err::<O::Phenotype, O::Failure>(e))
    ||| exists|phenotype: O::Phenotype|
        call_ensures(O::at_age, (ops, age), Ok::<O::Phenotype, O::Failure>(phenotype))
            && #[trigger] fit_failed(ops, target, phenotype, plan, rounds, mode, e)
    ||| exists|phenotype: O::Phenotype, f: FitResult<O::Pose, O::Phenotype, O::Points>|
        {
            &&& #[trigger] call_ensures(
                O::at_age,
                (ops, age),
                Ok::<O::Phenotype, O::Failure>(phenotype),
            )
            &&& #[trigger] is_fit(ops, target, phenotype, plan, rounds, mode, f)
            &&& call_ensures(
                O::judged,
                (ops, &f, &target, batch),
                Err::<Judged<T>, O::Failure>(e),
            )
        }
}

/// The last fit fails, from the best ages and heights of the trials: where it
/// starts from, or in its steps.
pub open spec fn last_failed<T, O: AnchorOps<T>>(
    ops: &O,
    target: O::Points,
    plan: Plan<O::Number>,
    rounds: nat,
    mode: PoseParameterization,
    best: BestAnchors<T>,
    e: O::Failure,
) -> bool {
    ||| call_ensures(
        O::at_ages,
        (ops, &best.ages, &best.heights),
        Err::<O::Phenotype, O::Failure>(e),
    )
    ||| exists|phenotype: O::Phenotype|
        call_ensures(
            O::at_ages,
            (ops, &best.ages, &best.heights),
            Ok::<O::Phenotype, O::Failure>(phenotype),
        ) && #[trigger] fit_failed(ops, target, phenotype, plan, rounds, mode, e)
}

/// The trials up to the one that fails went through, or all of them did and
/// the last fit fails.
pub open spec fn search_failed<T, O: AnchorOps<T>>(
    ops: &O,
    target: O::Points,
    anchors: Seq<T>,
    trial: Plan<O::Number>,
    last: Plan<O::Number>,
    rounds: nat,
    mode: PoseParameterization,
    batch: usize,
    far: T,
    no_age: T,
    no_height: T,
    e: O::Failure,
) -> bool {
    ||| exists|a: int, errors: Seq<Vec<T>>, heights: Seq<Vec<T>>|
        {
            &&& 0 <= a < anchors.len()
            &&& #[trigger] are_trials(
                ops,
                target,
                trial,
                rounds,
                mode,
                batch,
                anchors.take(a),
                errors,
                heights,
            )
            &&& trial_failed(ops, target, trial, rounds, mode, batch, anchors[a], e)
        }
    ||| exists|best: BestAnchors<T>|
        {
            &&& #[trigger] are_best(
                ops,
                target,
                anchors,
                trial,
                rounds,
                mode,
                batch,
                far,
                no_age,
                no_height,
                best,
            )
            &&& last_failed(ops, target, last, rounds, mode, best, e)
        }
}

/// Fits at each age of the anchors, then once more from the best age and
/// height of each element. The trials go by one plan, the last fit by
/// another.
pub fn fit_with_age_anchor_search<T: Copy, O: AnchorOps<T>>(
    ops: &O,
    target: &O::Points,
    anchors: &Vec<T>,
    trial: &Plan<O::Number>,
    last: &Plan<O::Number>,
    rounds: usize,
    mode: PoseParameterization,
    batch: usize,
    far: T,
    no_age: T,
    no_height: T,
) -> (r: Result<FitResult<O::Pose, O::Phenotype, O::Points>, SearchError<O::Failure>>)
    ensures
        match r {
            Ok(f) => is_search(
                ops,
                *target,
                anchors@,
                *trial,
                *last,
                rounds as nat,
                mode,
                batch,
                far,
                no_age,
                no_height,
                f,
            ),
            Err(SearchError::Step(e)) => search_failed(
                ops,
                *target,
                anchors@,
                *trial,
                *last,
                rounds as nat,
                mode,
                batch,
                far,
                no_age,
                no_height,
                e,
            ),
            Err(SearchError::Batch) => exists|a: int, errors: Vec<T>, heights: Vec<T>|
                0 <= a < anchors@.len() && #[trigger] is_trial(
                    ops,
                    *target,
                    *trial,
                    rounds as nat,
                    mode,
                    batch,
                    anchors@[a],
                    errors,
                    heights,
                ) && (errors@.len() < batch || heights@.len() < batch),
        },
{
    let mut errors: Vec<Vec<T>> = Vec::new();
    let mut heights: Vec<Vec<T>> = Vec::new();
    for a in 0..anchors.len()
        invariant
            errors@.len() == a,
            heights@.len() == a,
            forall|k: int|
                0 <= k < a ==> is_trial(
                    ops,
                    *target,
                    *trial,
                    rounds as nat,
                    mode,
                    batch,
                    anchors@[k],
                    #[trigger] errors@[k],
                    heights@[k],
                ),
            forall|k: int| 0 <= k < a ==> (#[trigger] errors@[k])@.len() >= batch,
            forall|k: int| 0 <= k < a ==> (#[trigger] heights@[k])@.len() >= batch,
    {
        assert(are_trials(
            ops,
            *target,
            *trial,
            rounds as nat,
            mode,
            batch,
            anchors@.take(a as int),
            errors@,
            heights@,
        ));
        let phenotype = match ops.at_age(anchors[a]) {
            Ok(x) => x,
            Err(e) => {
                return Err(SearchError::Step(e));
            },
        };
        let ghost from = phenotype;
        let f = match fit(ops, target, phenotype, trial, rounds, mode) {
            Ok(x) => x,
            Err(e) => {
                assert(fit_failed(ops, *target, from, *trial, rounds as nat, mode, e));
                return Err(SearchError::Step(e));
            },
        };
        let judged = match ops.judged(&f, target, batch) {
            Ok(x) => x,
            Err(e) => {
                assert(is_fit(ops, *target, from, *trial, rounds as nat, mode, f));
                return Err(SearchError::Step(e));
            },
        };
        proof {
            assert(is_fit(ops, *target, from, *trial, rounds as nat, mode, f));
            assert(is_trial(
                ops,
                *target,
                *trial,
                rounds as nat,
                mode,
                batch,
                anchors@[a as int],
                judged.errors,
                judged.heights,
            ));
        }
        if judged.errors.len() < batch || judged.heights.len() < batch {
            return Err(SearchError::Batch);
        }
        errors.push(judged.errors);
        heights.push(judged.heights);
    }
    let (ages, tall) = best_anchors(
        anchors,
        &errors,
        &heights,
        batch,
        far,
        no_age,
        no_height,
        ops,
    );
    let best = BestAnchors { ages, heights: tall };
    proof {
        assert(are_trials(
            ops,
            *target,
            *trial,
            rounds as nat,
            mode,
            batch,
            anchors@,
            errors@,
            heights@,
        ));
        assert(are_best(
            ops,
            *target,
            anchors@,
            *trial,
            rounds as nat,
            mode,
            batch,
            far,
            no_age,
            no_height,
            best,
        ));
    }
    let phenotype = match ops.at_ages(&best.ages, &best.heights) {
        Ok(x) => x,
        Err(e) => {
            assert(last_failed(ops, *target, *last, rounds as nat, mode, best, e));
            return Err(SearchError::Step(e));
        },
    };
    let ghost from = phenotype;
    match fit(ops, target, phenotype, last, rounds, mode) {
        Ok(x) => Ok(x),
        Err(e) => {
            proof {
                assert(fit_failed(ops, *target, from, *last, rounds as nat, mode, e));
                assert(last_failed(ops, *target, *last, rounds as nat, mode, best, e));
            }
            Err(SearchError::Step(e))
        },
    }
}

/// In exact arithmetic no anchor has a smaller error than the
/// one whose age is taken, if that is below `far`.
pub proof fn law_best_is_least<T, O: Bounds<T>>(
    ops: &O,
    far: T,
    errors: Seq<Vec<T>>,
    b: int,
    k: int,
    value: spec_fn(T) -> real,
)
    requires
        crate::scalar::compares(ops, value),
        crate::utils::mesh::is_standing(ops, far, errors_of(errors, b), errors.len(), k),
        k >= 0,
    ensures
        k < errors.len(),
        forall|a: int|
            0 <= a < errors.len() ==> value(errors[k]@[b]) <= value((#[trigger] errors[a])@[b]),
{
    let values = errors_of(errors, b);
    crate::utils::mesh::law_standing_is_first_least(ops, value, far, values, errors.len(), k);
    assert forall|a: int| 0 <= a < errors.len() implies value(errors[k]@[b]) <= value(
        (#[trigger] errors[a])@[b],
    ) by {
        assert(values[a] == errors[a]@[b]);
    }
}

} // verus!
