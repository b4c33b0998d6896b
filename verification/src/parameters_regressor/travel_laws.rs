//! How far a fit moves the phenotype.
use vstd::prelude::*;

use crate::kinematics::bone_poses::EndpointOps;
use crate::models::pose::PoseParameterization;
use crate::parameters_regressor::body_fit::{BodyFit, StepParts};
use crate::parameters_regressor::fitting::BoneOps;
use crate::parameters_regressor::schedule::{FitResult, FitState, Plan, RoundSteps};
use crate::parameters_regressor::{SolveOps, StepBounds};
use crate::phenotype::PhenotypeValues;
use crate::skinning::MotionOps;

verus! {

/// The way of `n` steps of the length `d`.
pub open spec fn reach(n: nat, d: real) -> real
    decreases n,
{
    if n == 0 {
        0 as real
    } else {
        reach((n - 1) as nat, d) + d
    }
}

/// The value `y` is within the bounds, and `x` is at most `way` from it.
pub open spec fn is_near<T>(
    value: spec_fn(T) -> real,
    bounds: StepBounds<T>,
    x: T,
    y: T,
    way: real,
) -> bool {
    &&& value(bounds.low) <= value(y) <= value(bounds.high)
    &&& value(x) - way <= value(y) <= value(x) + way
}

/// The numbers are exact, and the bounds of a step are bounds.
pub open spec fn steps_exactly<T, O: crate::scalar::Arithmetic<T> + crate::scalar::Bounds<T>>(
    ops: &O,
    value: spec_fn(T) -> real,
    bounds: StepBounds<T>,
) -> bool {
    &&& crate::scalar::is_exact(ops, value)
    &&& crate::scalar::compares(ops, value)
    &&& 0 as real <= value(bounds.most)
    &&& value(bounds.low) <= value(bounds.high)
}

/// In exact arithmetic a round moves no value of the phenotype by more than the
/// bound of a step, and none out of the bounds.
pub proof fn law_round_moves_little<
    'a,
    T: Copy,
    O: EndpointOps<T> + MotionOps<T> + BoneOps<T> + SolveOps<T>,
>(
    fit: &BodyFit<'a, T, O>,
    target: Vec<Vec<[T; 3]>>,
    plan: Plan<T>,
    before: FitState<BodyFit<'a, T, O>>,
    after: FitState<BodyFit<'a, T, O>>,
    label: Seq<char>,
    b: int,
    value: spec_fn(T) -> real,
)
    requires
        crate::parameters_regressor::schedule::is_round(fit, target, plan, before, after),
        before.phenotype.value(label) is Some,
        steps_exactly(
            fit.with().ops,
            value,
            crate::parameters_regressor::body_fit::bounds_of(fit.limits(), plan),
        ),
        0 <= b < crate::parameters_regressor::regressor::values_of(before.phenotype, label).len(),
        ({
            let bounds = crate::parameters_regressor::body_fit::bounds_of(fit.limits(), plan);
            let x = crate::parameters_regressor::regressor::values_of(before.phenotype, label)[b];
            value(bounds.low) <= value(x) <= value(bounds.high)
        }),
    ensures
        ({
            let bounds = crate::parameters_regressor::body_fit::bounds_of(fit.limits(), plan);
            is_near(
                value,
                bounds,
                crate::parameters_regressor::regressor::values_of(before.phenotype, label)[b],
                crate::parameters_regressor::regressor::values_of(after.phenotype, label)[b],
                value(bounds.most),
            )
        }),
{
    let bounds = crate::parameters_regressor::body_fit::bounds_of(fit.limits(), plan);
    let keys = crate::names::str_views(plan.keys@);
    crate::parameters_regressor::regressor::law_round_changes_keys_only(
        fit,
        target,
        plan,
        before,
        after,
        label,
    );
    if keys.contains(label) {
        let s = choose|s: RoundSteps<BodyFit<'a, T, O>>| #[trigger]
            crate::parameters_regressor::schedule::are_round_steps(
                fit,
                target,
                plan,
                before,
                s,
                6,
            ) && after.phenotype == s.phenotype && after.body == s.body;
        assert(crate::parameters_regressor::schedule::round_step(
            fit,
            target,
            plan,
            before,
            s,
            4,
            None,
        ));
        let i = choose|i: int| 0 <= i < keys.len() && keys[i] == label;
        assert(plan.keys@.len() > 0);
        assert(fit.step_outcome(
            plan,
            s.pose@,
            before.phenotype,
            s.found@,
            target@,
            Ok(after.phenotype),
        ));
        let p = choose|p: StepParts<T>|
            {
                &&& #[trigger] fit.are_parts(
                    plan.keys@,
                    s.pose@,
                    before.phenotype,
                    s.found@,
                    target@,
                    p,
                )
                &&& crate::parameters_regressor::are_stepped(
                    fit.with().ops,
                    bounds,
                    p.delta@,
                    keys,
                    p.start,
                    after.phenotype,
                    keys.len() as int,
                )
            };
        crate::parameters_regressor::regressor::lemma_same_values(
            before.phenotype,
            p.start,
            label,
        );
        let old_values = p.start.value(keys[i])->0@;
        let new_values = after.phenotype.value(keys[i])->0@;
        assert(crate::parameters_regressor::is_stepped(
            fit.with().ops,
            bounds,
            p.delta@,
            i,
            old_values,
            new_values,
        ));
        crate::utils::bounds::law_damped_step(
            fit.with().ops,
            old_values[b],
            p.delta@[b]@[i],
            bounds.most,
            bounds.low,
            bounds.high,
            new_values[b],
            value,
        );
    }
}

/// In exact arithmetic rounds move no value of the phenotype by more than the bound
/// of a step each, and none out of the bounds.
pub proof fn law_rounds_move_little<
    'a,
    T: Copy,
    O: EndpointOps<T> + MotionOps<T> + BoneOps<T> + SolveOps<T>,
>(
    fit: &BodyFit<'a, T, O>,
    target: Vec<Vec<[T; 3]>>,
    plan: Plan<T>,
    n: nat,
    before: FitState<BodyFit<'a, T, O>>,
    after: FitState<BodyFit<'a, T, O>>,
    label: Seq<char>,
    b: int,
    value: spec_fn(T) -> real,
)
    requires
        crate::parameters_regressor::schedule::are_rounds(fit, target, plan, n, before, after),
        before.phenotype.value(label) is Some,
        steps_exactly(
            fit.with().ops,
            value,
            crate::parameters_regressor::body_fit::bounds_of(fit.limits(), plan),
        ),
        0 <= b < crate::parameters_regressor::regressor::values_of(before.phenotype, label).len(),
        ({
            let bounds = crate::parameters_regressor::body_fit::bounds_of(fit.limits(), plan);
            let x = crate::parameters_regressor::regressor::values_of(before.phenotype, label)[b];
            value(bounds.low) <= value(x) <= value(bounds.high)
        }),
    ensures
        ({
            let bounds = crate::parameters_regressor::body_fit::bounds_of(fit.limits(), plan);
            is_near(
                value,
                bounds,
                crate::parameters_regressor::regressor::values_of(before.phenotype, label)[b],
                crate::parameters_regressor::regressor::values_of(after.phenotype, label)[b],
                reach(n, value(bounds.most)),
            )
        }),
    decreases n,
{
    if n > 0 {
        let middle = choose|middle: FitState<BodyFit<'a, T, O>>|
            crate::parameters_regressor::schedule::are_rounds(
                fit,
                target,
                plan,
                (n - 1) as nat,
                before,
                middle,
            ) && #[trigger] crate::parameters_regressor::schedule::is_round(
                fit,
                target,
                plan,
                middle,
                after,
            );
        crate::parameters_regressor::regressor::law_rounds_change_keys_only(
            fit,
            target,
            plan,
            (n - 1) as nat,
            before,
            middle,
            label,
        );
        law_rounds_move_little(
            fit,
            target,
            plan,
            (n - 1) as nat,
            before,
            middle,
            label,
            b,
            value,
        );
        law_round_moves_little(fit, target, plan, middle, after, label, b, value);
    }
}

/// In exact arithmetic a fit that starts within the bounds moves no value of the
/// phenotype by more than the bound of a step for each round, and ends within the
/// bounds.
pub proof fn law_fit_moves_little<
    'a,
    T: Copy,
    O: EndpointOps<T> + MotionOps<T> + BoneOps<T> + SolveOps<T>,
>(
    fit: &BodyFit<'a, T, O>,
    target: Vec<Vec<[T; 3]>>,
    start: PhenotypeValues<Vec<T>>,
    plan: Plan<T>,
    n: nat,
    mode: PoseParameterization,
    r: FitResult<Vec<Vec<[[T; 4]; 4]>>, PhenotypeValues<Vec<T>>, Vec<Vec<[T; 3]>>>,
    label: Seq<char>,
    b: int,
    value: spec_fn(T) -> real,
)
    requires
        crate::parameters_regressor::schedule::is_fit(fit, target, start, plan, n, mode, r),
        start.value(label) is Some,
        steps_exactly(
            fit.with().ops,
            value,
            crate::parameters_regressor::body_fit::bounds_of(fit.limits(), plan),
        ),
        0 <= b < crate::parameters_regressor::regressor::values_of(start, label).len(),
        ({
            let bounds = crate::parameters_regressor::body_fit::bounds_of(fit.limits(), plan);
            let x = crate::parameters_regressor::regressor::values_of(start, label)[b];
            value(bounds.low) <= value(x) <= value(bounds.high)
        }),
    ensures
        ({
            let bounds = crate::parameters_regressor::body_fit::bounds_of(fit.limits(), plan);
            is_near(
                value,
                bounds,
                crate::parameters_regressor::regressor::values_of(start, label)[b],
                crate::parameters_regressor::regressor::values_of(r.phenotype, label)[b],
                reach(n, value(bounds.most)),
            )
        }),
{
    let (wanted, first, end) = choose|
        wanted: Vec<Vec<[T; 3]>>,
        first: FitState<BodyFit<'a, T, O>>,
        end: FitState<BodyFit<'a, T, O>>,
    |
        {
            &&& #[trigger] crate::parameters_regressor::schedule::reaches(
                fit,
                target,
                start,
                plan,
                n,
                wanted,
                first,
                end,
            )
            &&& r.phenotype == end.phenotype
        };
    law_rounds_move_little(fit, wanted, plan, n, first, end, label, b, value);
}

} // verus!
