//! What the parts of a fitted body have to do with each other.
use vstd::prelude::*;

use crate::models::pose::PoseParameterization;
use crate::parameters_regressor::schedule::{FitOps, FitResult, FitState, JointSteps, Plan,
    RoundSteps, StartSteps};
use crate::scalar::Bounds;

verus! {

/// What is told of a fit is told of one body: there is a pose whose body, with the
/// phenotype that is told, has the vertices and the parameters that are told.
pub open spec fn is_one_body<O: FitOps>(
    ops: &O,
    mode: PoseParameterization,
    r: FitResult<O::Pose, O::Phenotype, O::Points>,
    pose: O::Pose,
    body: O::Body,
) -> bool {
    &&& call_ensures(
        O::forward,
        (ops, &pose, &r.phenotype, PoseParameterization::RootRelativeWorld),
        Ok::<O::Body, O::Failure>(body),
    )
    &&& call_ensures(O::vertices, (ops, &body), Ok::<O::Points, O::Failure>(r.vertices))
    &&& call_ensures(
        O::parameters,
        (ops, &body, mode),
        Ok::<O::Pose, O::Failure>(r.pose_parameters),
    )
}

/// A fit gives the pose, the phenotype and the vertices of one body, however many rounds
/// it takes.
pub proof fn law_fits_are_bodies<O: FitOps>(
    ops: &O,
    target: O::Points,
    phenotype: O::Phenotype,
    plan: Plan<O::Number>,
    rounds: usize,
    mode: PoseParameterization,
    r: FitResult<O::Pose, O::Phenotype, O::Points>,
) -> (found: (O::Pose, O::Body))
    requires
        call_ensures(
            crate::parameters_regressor::schedule::fit::<O>,
            (ops, &target, phenotype, &plan, rounds, mode),
            Ok::<FitResult<O::Pose, O::Phenotype, O::Points>, O::Failure>(r),
        ),
    ensures
        is_one_body(ops, mode, r, found.0, found.1),
{
    assert(crate::parameters_regressor::schedule::is_fit(
        ops,
        target,
        phenotype,
        plan,
        rounds as nat,
        mode,
        r,
    ));
    let (wanted, start, end) = choose|wanted: O::Points, start: FitState<O>, end: FitState<O>|
        {
            &&& #[trigger] crate::parameters_regressor::schedule::reaches(
                ops,
                target,
                phenotype,
                plan,
                rounds as nat,
                wanted,
                start,
                end,
            )
            &&& call_ensures(
                O::parameters,
                (ops, &end.body, mode),
                Ok::<O::Pose, O::Failure>(r.pose_parameters),
            )
            &&& call_ensures(
                O::vertices,
                (ops, &end.body),
                Ok::<O::Points, O::Failure>(r.vertices),
            )
            &&& r.phenotype == end.phenotype
        };
    if rounds == 0 {
        let s = choose|s: StartSteps<O>| #[trigger]
            crate::parameters_regressor::schedule::are_start_steps(ops, wanted, phenotype, s, 7)
                && start.body == s.body && start.phenotype == phenotype;
        assert(crate::parameters_regressor::schedule::start_step(
            ops,
            wanted,
            phenotype,
            s,
            6,
            None,
        ));
        (s.pose, s.body)
    } else {
        let middle = choose|middle: FitState<O>|
            crate::parameters_regressor::schedule::are_rounds(
                ops,
                wanted,
                plan,
                (rounds - 1) as nat,
                start,
                middle,
            ) && #[trigger] crate::parameters_regressor::schedule::is_round(
                ops,
                wanted,
                plan,
                middle,
                end,
            );
        let s = choose|s: RoundSteps<O>| #[trigger]
            crate::parameters_regressor::schedule::are_round_steps(
                ops,
                wanted,
                plan,
                middle,
                s,
                6,
            ) && end.phenotype == s.phenotype && end.body == s.body;
        assert(crate::parameters_regressor::schedule::round_step(
            ops,
            wanted,
            plan,
            middle,
            s,
            5,
            None,
        ));
        (s.pose, s.body)
    }
}

/// The alignment takes the body of the phenotype at rest to the target: the root that
/// takes its vertices that count to those of the target is put on the pose at rest, and
/// the body of that pose, with the same phenotype, is what it starts from.
pub proof fn law_start_aligns_the_rest_body<O: FitOps>(
    ops: &O,
    wanted: O::Points,
    phenotype: O::Phenotype,
    state: FitState<O>,
) -> (s: StartSteps<O>)
    requires
        crate::parameters_regressor::schedule::is_start(ops, wanted, phenotype, state),
    ensures
        state.phenotype == phenotype,
        call_ensures(O::rest_pose, (ops,), Ok::<O::Pose, O::Failure>(s.rest)),
        call_ensures(
            O::forward,
            (ops, &s.rest, &phenotype, PoseParameterization::RootRelativeWorld),
            Ok::<O::Body, O::Failure>(s.first),
        ),
        call_ensures(O::vertices, (ops, &s.first), Ok::<O::Points, O::Failure>(s.all)),
        call_ensures(O::used, (ops, &s.all), Ok::<O::Points, O::Failure>(s.used)),
        call_ensures(O::align, (ops, &s.used, &wanted), Ok::<O::Root, O::Failure>(s.root)),
        call_ensures(O::with_root, (ops, &s.rest, &s.root), Ok::<O::Pose, O::Failure>(s.pose)),
        call_ensures(
            O::forward,
            (ops, &s.pose, &phenotype, PoseParameterization::RootRelativeWorld),
            Ok::<O::Body, O::Failure>(state.body),
        ),
{
    let s = choose|s: StartSteps<O>| #[trigger]
        crate::parameters_regressor::schedule::are_start_steps(ops, wanted, phenotype, s, 7)
            && state.body == s.body && state.phenotype == phenotype;
    assert(crate::parameters_regressor::schedule::start_step(ops, wanted, phenotype, s, 0, None));
    assert(crate::parameters_regressor::schedule::start_step(ops, wanted, phenotype, s, 1, None));
    assert(crate::parameters_regressor::schedule::start_step(ops, wanted, phenotype, s, 2, None));
    assert(crate::parameters_regressor::schedule::start_step(ops, wanted, phenotype, s, 3, None));
    assert(crate::parameters_regressor::schedule::start_step(ops, wanted, phenotype, s, 4, None));
    assert(crate::parameters_regressor::schedule::start_step(ops, wanted, phenotype, s, 5, None));
    assert(crate::parameters_regressor::schedule::start_step(ops, wanted, phenotype, s, 6, None));
    s
}

/// The joints are registered by moving the bones from where they are to the target. The
/// pose of that body is made exact and put in place, and the root that takes the body of
/// it to the moved body is put on it. What is found are the vertices that count of the
/// body in place, moved by that root.
pub proof fn law_joints_follow_the_target<O: FitOps>(
    ops: &O,
    reference: O::Points,
    target: O::Points,
    bones: O::Pose,
    phenotype: O::Phenotype,
    pose: O::Pose,
    found: O::Points,
) -> (s: JointSteps<O>)
    requires
        call_ensures(
            crate::parameters_regressor::schedule::jointwise_registration::<O>,
            (ops, &reference, &target, &bones, &phenotype),
            Ok::<(O::Pose, O::Points), O::Failure>((pose, found)),
        ),
    ensures
        call_ensures(
            O::move_bones,
            (ops, &reference, &target, &bones),
            Ok::<O::Pose, O::Failure>(s.bones),
        ),
        call_ensures(
            O::forward,
            (ops, &s.bones, &phenotype, PoseParameterization::Absolute),
            Ok::<O::Body, O::Failure>(s.body),
        ),
        call_ensures(
            O::parameters,
            (ops, &s.body, PoseParameterization::RootRelativeWorld),
            Ok::<O::Pose, O::Failure>(s.raw),
        ),
        call_ensures(O::cleaned, (ops, &s.raw), Ok::<O::Pose, O::Failure>(s.clean)),
        call_ensures(O::in_place, (ops, &s.clean), Ok::<O::Pose, O::Failure>(s.placed)),
        call_ensures(
            O::forward,
            (ops, &s.placed, &phenotype, PoseParameterization::RootRelativeWorld),
            Ok::<O::Body, O::Failure>(s.neutral),
        ),
        call_ensures(O::vertices, (ops, &s.neutral), Ok::<O::Points, O::Failure>(s.from)),
        call_ensures(O::vertices, (ops, &s.body), Ok::<O::Points, O::Failure>(s.to)),
        call_ensures(O::align, (ops, &s.from, &s.to), Ok::<O::Root, O::Failure>(s.root)),
        call_ensures(O::with_root, (ops, &s.placed, &s.root), Ok::<O::Pose, O::Failure>(pose)),
        call_ensures(O::used, (ops, &s.from), Ok::<O::Points, O::Failure>(s.used)),
        call_ensures(O::moved, (ops, &s.used, &s.root), Ok::<O::Points, O::Failure>(found)),
{
    let s = choose|s: JointSteps<O>| #[trigger]
        crate::parameters_regressor::schedule::are_joint_steps(
            ops,
            reference,
            target,
            bones,
            phenotype,
            s,
            12,
        ) && s.pose == pose && s.found == found;
    lemma_joint_step(ops, reference, target, bones, phenotype, s, 0);
    lemma_joint_step(ops, reference, target, bones, phenotype, s, 1);
    lemma_joint_step(ops, reference, target, bones, phenotype, s, 2);
    lemma_joint_step(ops, reference, target, bones, phenotype, s, 3);
    lemma_joint_step(ops, reference, target, bones, phenotype, s, 4);
    lemma_joint_step(ops, reference, target, bones, phenotype, s, 5);
    lemma_joint_step(ops, reference, target, bones, phenotype, s, 6);
    lemma_joint_step(ops, reference, target, bones, phenotype, s, 7);
    lemma_joint_step(ops, reference, target, bones, phenotype, s, 8);
    lemma_joint_step(ops, reference, target, bones, phenotype, s, 9);
    lemma_joint_step(ops, reference, target, bones, phenotype, s, 10);
    lemma_joint_step(ops, reference, target, bones, phenotype, s, 11);
    s
}

proof fn lemma_joint_step<O: FitOps>(
    ops: &O,
    reference: O::Points,
    target: O::Points,
    bones: O::Pose,
    phenotype: O::Phenotype,
    s: JointSteps<O>,
    k: int,
)
    requires
        crate::parameters_regressor::schedule::are_joint_steps(
            ops,
            reference,
            target,
            bones,
            phenotype,
            s,
            12,
        ),
        0 <= k < 12,
    ensures
        crate::parameters_regressor::schedule::joint_step(
            ops,
            reference,
            target,
            bones,
            phenotype,
            s,
            k,
            None,
        ),
{
}

/// A round registers the joints from the vertices that count of the body before to the
/// target, with the phenotype before. Then, where there are keys, it takes a step of the
/// phenotype from what was found to the target, and the body is that of the new pose and
/// the new phenotype.
pub proof fn law_rounds_fit_pose_and_phenotype<O: FitOps>(
    ops: &O,
    target: O::Points,
    plan: Plan<O::Number>,
    before: FitState<O>,
    after: FitState<O>,
) -> (s: RoundSteps<O>)
    requires
        crate::parameters_regressor::schedule::is_round(ops, target, plan, before, after),
    ensures
        call_ensures(O::vertices, (ops, &before.body), Ok::<O::Points, O::Failure>(s.all)),
        call_ensures(O::used, (ops, &s.all), Ok::<O::Points, O::Failure>(s.used)),
        call_ensures(O::bone_poses, (ops, &before.body), Ok::<O::Pose, O::Failure>(s.bones)),
        crate::parameters_regressor::schedule::is_jointwise(
            ops,
            s.used,
            target,
            s.bones,
            before.phenotype,
            s.pose,
            s.found,
        ),
        plan.keys@.len() > 0 ==> call_ensures(
            O::phenotype_step,
            (ops, &plan, &s.pose, &before.phenotype, &s.found, &target),
            Ok::<O::Phenotype, O::Failure>(after.phenotype),
        ),
        plan.keys@.len() == 0 ==> after.phenotype == before.phenotype,
        call_ensures(
            O::forward,
            (ops, &s.pose, &after.phenotype, PoseParameterization::RootRelativeWorld),
            Ok::<O::Body, O::Failure>(after.body),
        ),
{
    let s = choose|s: RoundSteps<O>| #[trigger]
        crate::parameters_regressor::schedule::are_round_steps(ops, target, plan, before, s, 6)
            && after.phenotype == s.phenotype && after.body == s.body;
    assert(crate::parameters_regressor::schedule::round_step(ops, target, plan, before, s, 0, None));
    assert(crate::parameters_regressor::schedule::round_step(ops, target, plan, before, s, 1, None));
    assert(crate::parameters_regressor::schedule::round_step(ops, target, plan, before, s, 2, None));
    assert(crate::parameters_regressor::schedule::round_step(ops, target, plan, before, s, 3, None));
    assert(crate::parameters_regressor::schedule::round_step(ops, target, plan, before, s, 4, None));
    assert(crate::parameters_regressor::schedule::round_step(ops, target, plan, before, s, 5, None));
    s
}

/// In exact arithmetic each element takes the age of the anchor with the least error for
/// it, and the height that it came to at that anchor, where some error is less than
/// `far`.
pub proof fn law_anchors_with_least_error<T: Copy, O: Bounds<T>>(
    ops: &O,
    anchors: Vec<T>,
    errors: Vec<Vec<T>>,
    heights: Vec<Vec<T>>,
    far: T,
    no_age: T,
    no_height: T,
    batch: usize,
    r: (Vec<T>, Vec<T>),
    value: spec_fn(T) -> real,
    b: int,
    a: int,
) -> (k: int)
    requires
        crate::scalar::compares(ops, value),
        call_ensures(
            crate::parameters_regressor::schedule::best_anchors::<T, O>,
            (&anchors, &errors, &heights, batch, far, no_age, no_height, ops),
            r,
        ),
        0 <= b < batch,
        0 <= a < errors@.len(),
        value(errors@[a]@[b]) < value(far),
    ensures
        0 <= k < errors@.len(),
        r.0@[b] == anchors@[k],
        r.1@[b] == heights@[k]@[b],
        value(errors@[k]@[b]) <= value(errors@[a]@[b]),
{
    assert(crate::parameters_regressor::schedule::is_best(
        ops,
        far,
        anchors@,
        errors@,
        heights@,
        no_age,
        no_height,
        b,
        r.0@[b],
        r.1@[b],
    ));
    let k = choose|k: int| #[trigger]
        crate::utils::mesh::is_standing(
            ops,
            far,
            crate::parameters_regressor::schedule::errors_of(errors@, b),
            errors@.len(),
            k,
        ) && {
            &&& r.0@[b] == if k < 0 {
                no_age
            } else {
                anchors@[k]
            }
            &&& r.1@[b] == if k < 0 {
                no_height
            } else {
                heights@[k]@[b]
            }
        };
    let values = crate::parameters_regressor::schedule::errors_of(errors@, b);
    crate::utils::mesh::law_standing_is_first_least(ops, value, far, values, errors@.len(), k);
    assert(values[a] == errors@[a]@[b]);
    if k >= 0 {
        assert(values[k] == errors@[k]@[b]);
    }
    k
}

} // verus!
