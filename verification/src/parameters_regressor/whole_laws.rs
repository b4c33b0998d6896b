//! What one step of the phenotype is taken for.
use vstd::prelude::*;

use crate::kinematics::bone_poses::EndpointOps;
use crate::models::pose::PoseParameterization;
use crate::parameters_regressor::body_fit::{BodyFit, FitFailure, StepParts};
use crate::parameters_regressor::fitting::BoneOps;
use crate::parameters_regressor::schedule::{FitOps, Plan};
use crate::parameters_regressor::SolveOps;
use crate::phenotype::PhenotypeValues;
use crate::skinning::MotionOps;

verus! {

/// The values of two phenotypes are the same.
pub open spec fn same_values<T>(p: PhenotypeValues<Vec<T>>, q: PhenotypeValues<Vec<T>>) -> bool {
    &&& p.age@ == q.age@
    &&& p.gender@ == q.gender@
    &&& p.muscle@ == q.muscle@
    &&& p.weight@ == q.weight@
    &&& p.height@ == q.height@
    &&& p.proportions@ == q.proportions@
    &&& p.cupsize@ == q.cupsize@
    &&& p.firmness@ == q.firmness@
    &&& p.african@ == q.african@
    &&& p.asian@ == q.asian@
    &&& p.caucasian@ == q.caucasian@
}

/// Place `k` of the one has the values of place `b` of the other.
pub open spec fn holds_values<T>(
    p: PhenotypeValues<Vec<T>>,
    k: int,
    q: PhenotypeValues<Vec<T>>,
    b: int,
) -> bool {
    &&& p.age@[k] == q.age@[b]
    &&& p.gender@[k] == q.gender@[b]
    &&& p.muscle@[k] == q.muscle@[b]
    &&& p.weight@[k] == q.weight@[b]
    &&& p.height@[k] == q.height@[b]
    &&& p.proportions@[k] == q.proportions@[b]
    &&& p.cupsize@[k] == q.cupsize@[b]
    &&& p.firmness@[k] == q.firmness@[b]
    &&& p.african@[k] == q.african@[b]
    &&& p.asian@[k] == q.asian@[b]
    &&& p.caucasian@[k] == q.caucasian@[b]
}

proof fn lemma_same_fields<T>(p: PhenotypeValues<Vec<T>>, q: PhenotypeValues<Vec<T>>)
    requires
        crate::parameters_regressor::fields(p) == crate::parameters_regressor::fields(q),
    ensures
        same_values(p, q),
{
    let (x, y) = (
        crate::parameters_regressor::fields(p),
        crate::parameters_regressor::fields(q),
    );
    assert(x[0] == y[0] && x[1] == y[1] && x[2] == y[2] && x[3] == y[3] && x[4] == y[4]);
    assert(x[5] == y[5] && x[6] == y[6] && x[7] == y[7] && x[8] == y[8] && x[9] == y[9]);
    assert(x[10] == y[10]);
}

/// In exact arithmetic a step of the phenotype is taken by bodies of the same pose in
/// which one label at a time is greater by a small step: the slope of a coordinate in a
/// label, times that step, is how far the body of the label is off the one of the
/// phenotype itself. What is missing is that which, added to what was found, gives the
/// target. The changes leave the smallest regularised error by those slopes of what is
/// missing. And the new phenotype is the old one with the change of each key added to
/// its value, by no more than the longest step and not out of the bounds; other values
/// stay.
#[verifier::rlimit(60)]
pub proof fn law_steps_are_taken_by_slopes<
    'a,
    T: Copy,
    O: EndpointOps<T> + MotionOps<T> + BoneOps<T> + SolveOps<T>,
>(
    fit: BodyFit<'a, T, O>,
    plan: Plan<T>,
    pose: Vec<Vec<[[T; 4]; 4]>>,
    phenotype: PhenotypeValues<Vec<T>>,
    found: Vec<Vec<[T; 3]>>,
    target: Vec<Vec<[T; 3]>>,
    after: PhenotypeValues<Vec<T>>,
    value: spec_fn(T) -> real,
    b: int,
    k: int,
    c: int,
    l: int,
    z: Seq<real>,
    other: Seq<real>,
    i: int,
    name: Seq<char>,
) -> (s: StepParts<T>)
    requires
        crate::scalar::compares(fit.with().ops, value),
        crate::parameters_regressor::step_laws::solves_exactly(fit.with().ops, value),
        value(fit.with().zero) == 0 as real,
        0 as real <= value(
            crate::parameters_regressor::body_fit::bounds_of(fit.limits(), plan).most,
        ),
        value(fit.limits().bounds.low) <= value(fit.limits().bounds.high),
        crate::scalar::is_exact(fit.with().ops, value),
        crate::scalar::divides_exactly(fit.with().ops, value),
        value(fit.with().one) == 1 as real,
        value(fit.limits().eps) > 0 as real,
        call_ensures(
            <BodyFit<'a, T, O> as FitOps>::phenotype_step,
            (&fit, &plan, &pose, &phenotype, &found, &target),
            Ok::<PhenotypeValues<Vec<T>>, FitFailure>(after),
        ),
        0 <= b < fit.size(),
        0 <= k < fit.partition().sample_idx@.len(),
        0 <= c < 3,
        0 <= l < fit.labels().len(),
        phenotype.value(name) is Some,
    ensures
        s.columns@.len() == plan.keys@.len(),
        s.weights@.len() == plan.keys@.len(),
        s.delta@[b]@.len() == plan.keys@.len(),
        other.len() == plan.keys@.len() && (forall|j: int|
            0 <= j < s.weights@.len() ==> value(#[trigger] s.weights@[j]) >= 0 as real)
            && crate::parameters_regressor::step_laws::is_stationary(
            value,
            s.jacobian@[b]@,
            s.columns@,
            s.residual@[b]@,
            s.weights@,
            z,
        ) ==> crate::parameters_regressor::step_laws::regularised_error(
            value,
            s.jacobian@[b]@,
            s.columns@,
            s.residual@[b]@,
            s.weights@,
            crate::parameters_regressor::step_laws::numbers(value, s.delta@[b]@),
        ) <= crate::parameters_regressor::step_laws::regularised_error(
            value,
            s.jacobian@[b]@,
            s.columns@,
            s.residual@[b]@,
            s.weights@,
            other,
        ),
        after.value(name) is Some,
        !crate::names::str_views(plan.keys@).contains(name) ==> after.value(name) == s.start.value(
            name,
        ),
        0 <= i < plan.keys@.len() && plan.keys@[i]@ == name ==> {
            let most = value(
                crate::parameters_regressor::body_fit::bounds_of(fit.limits(), plan).most,
            );
            value(after.value(name)->0@[b])
                == crate::parameters_regressor::slope_laws::between(
                value(s.start.value(name)->0@[b])
                    + crate::parameters_regressor::slope_laws::between(
                    value(s.delta@[b]@[i]),
                    -most,
                    most,
                ),
                value(fit.limits().bounds.low),
                value(fit.limits().bounds.high),
            )
        },
        ({
            let at = fit.partition().sample_idx@[k] as int;
            let first = b * (fit.labels().len() + 1);
            let bumped = first + l + 1;
            let slope = s.jacobian@[b]@[3 * k + c]@[l];
            let label = fit.labels()[l];
            &&& value(found@[b]@[at]@[c]) + value(s.residual@[b]@[3 * k + c]) == value(
                target@[b]@[at]@[c],
            )
            &&& value(slope) * value(fit.limits().eps) == value(s.used@[bumped]@[at]@[c]) - value(
                s.used@[first]@[at]@[c],
            )
            &&& s.poses@[first]@ == pose@[b]@
            &&& s.poses@[bumped]@ == pose@[b]@
            &&& holds_values(s.repeated, first, phenotype, b)
            &&& holds_values(s.repeated, bumped, phenotype, b)
            &&& s.repeated.value(label) is Some
            &&& s.perturbed.value(label) is Some
            &&& value(s.perturbed.value(label)->0@[first]) == value(
                s.repeated.value(label)->0@[first],
            )
            &&& value(s.perturbed.value(label)->0@[bumped]) == value(
                s.repeated.value(label)->0@[bumped],
            ) + value(fit.limits().eps)
            &&& same_values(s.start, phenotype)
        }),
        crate::models::forward::forward_outcome(
            fit.with().ops,
            fit.with().third,
            fit.with().zero,
            fit.with().one,
            fit.body_model(),
            Some(s.poses@),
            s.perturbed,
            Seq::<(String, Vec<T>)>::empty(),
            Some(PoseParameterization::RootRelativeWorld),
            Ok(s.bodies),
        ),
        s.used@.len() == s.bodies.vertices@.len(),
        forall|i: int, j: int|
            0 <= i < s.used@.len() && 0 <= j < fit.partition().partition.unique_ids@.len()
                ==> #[trigger] s.used@[i]@[j]
                == s.bodies.vertices@[i]@[fit.partition().partition.unique_ids@[j] as int],
        forall|i: int|
            0 <= i < plan.keys@.len() ==> fit.labels()[#[trigger] s.columns@[i] as int]
                == plan.keys@[i]@,
{
    let keys = crate::names::str_views(plan.keys@);
    assert(fit.step_outcome(plan, pose@, phenotype, found@, target@, Ok(after)));
    let s = choose|s: StepParts<T>|
        {
            &&& #[trigger] fit.are_parts(plan.keys@, pose@, phenotype, found@, target@, s)
            &&& crate::parameters_regressor::are_stepped(
                fit.with().ops,
                crate::parameters_regressor::body_fit::bounds_of(fit.limits(), plan),
                s.delta@,
                keys,
                s.start,
                after,
                keys.len() as int,
            )
        };
    let ops = fit.with().ops;
    let samples = fit.partition().sample_idx@;
    let ids = fit.partition().partition.unique_ids@;
    let labels = fit.labels();
    let n = labels.len() as int;
    let r = n + 1;
    let size = fit.size();
    let at = samples[k] as int;
    let (first, bumped) = (b * r, b * r + l + 1);
    lemma_same_fields(s.start, phenotype);
    assert(at < ids.len());
    // What is missing.
    assert(crate::parameters_regressor::steps::are_residuals(
        ops,
        target@[b]@,
        found@[b]@,
        samples,
        s.residual@[b]@,
    ));
    // The places in the runs.
    assert(0 <= b * r && b * r + r <= size * r) by (nonlinear_arith)
        requires
            0 <= b < size,
            0 < r,
    ;
    vstd::arithmetic::div_mod::lemma_fundamental_div_mod_converse(first, r, b, 0);
    vstd::arithmetic::div_mod::lemma_fundamental_div_mod_converse(bumped, r, b, l + 1);
    assert(s.poses@[first]@ == pose@[b]@);
    assert(s.poses@[bumped]@ == pose@[b]@);
    crate::parameters_regressor::slope_laws::lemma_repeats_by_name(
        phenotype,
        size as nat,
        r as nat,
        s.repeated,
        b,
        0,
    );
    crate::parameters_regressor::slope_laws::lemma_repeats_by_name(
        phenotype,
        size as nat,
        r as nat,
        s.repeated,
        b,
        l + 1,
    );
    // The slopes.
    assert(crate::parameters_regressor::phenotype_step::is_row(
        ops,
        s.per_step,
        s.used@,
        samples,
        n,
        s.jacobian@[b]@,
        b,
        k,
        c,
    ));
    let x = s.jacobian@[b]@[3 * k + c]@[l];
    assert(crate::parameters_regressor::phenotype_step::is_slope(
        ops,
        s.per_step,
        s.used@,
        samples,
        n,
        b,
        k,
        c,
        l,
        x,
    ));
    assert forall|i: int, j: int| 0 <= i < s.used@.len() && 0 <= j < ids.len() implies
        #[trigger] s.used@[i]@[j] == s.bodies.vertices@[i]@[ids[j] as int] by {
        assert(s.used@[i]@ == crate::models::full_model::picked(s.bodies.vertices@[i]@, ids));
    }
    let (eps, per) = (value(fit.limits().eps), value(s.per_step));
    let off = value(s.used@[bumped]@[at]@[c]) - value(s.used@[first]@[at]@[c]);
    assert(per * eps == 1 as real) by (nonlinear_arith)
        requires
            per == (1 as real) / eps,
            eps > 0 as real,
    ;
    assert((off * per) * eps == off) by (nonlinear_arith)
        requires
            per * eps == 1 as real,
    ;
    // The labels.
    assert(s.repeated.value(labels[l]) is Some);
    assert(crate::parameters_regressor::is_bumped(
        ops,
        fit.limits().eps,
        l,
        crate::parameters_regressor::row_len(labels),
        s.repeated.value(labels[l])->0@,
        s.perturbed.value(labels[l])->0@,
    ));
    crate::parameters_regressor::body_fit::lemma_lengths(s.repeated, (size * r) as nat);
    crate::parameters_regressor::body_fit::lemma_lengths(phenotype, size as nat);
    assert forall|f: int| 0 <= f < 11 implies (
    #[trigger] crate::parameters_regressor::fields(s.repeated)[f]).len() == size * r by {
        assert(crate::parameters_regressor::fields(phenotype)[f].len() == size);
    }
    assert(s.perturbed.value(labels[l])->0@[first] == s.repeated.value(labels[l])->0@[first]);
    assert(crate::scalar::sum_of(
        ops,
        s.repeated.value(labels[l])->0@[bumped],
        fit.limits().eps,
        s.perturbed.value(labels[l])->0@[bumped],
    ));
    assert forall|i: int| 0 <= i < plan.keys@.len() implies labels[#[trigger] s.columns@[i] as int]
        == plan.keys@[i]@ by {
        crate::names::lemma_last_at(labels, plan.keys@[i]@);
    }
    // The change.
    assert(crate::parameters_regressor::phenotype_step::is_solution(
        ops,
        s.jacobian@[b]@,
        s.columns@,
        s.residual@[b]@,
        s.weights@,
        fit.with().zero,
        s.delta@[b]@,
    ));
    if other.len() == plan.keys@.len() && (forall|j: int|
        0 <= j < s.weights@.len() ==> value(#[trigger] s.weights@[j]) >= 0 as real)
        && crate::parameters_regressor::step_laws::is_stationary(
        value,
        s.jacobian@[b]@,
        s.columns@,
        s.residual@[b]@,
        s.weights@,
        z,
    ) {
        crate::parameters_regressor::step_laws::law_step_is_least(
            ops,
            s.jacobian@[b]@,
            s.columns@,
            s.residual@[b]@,
            s.weights@,
            fit.with().zero,
            s.delta@[b]@,
            value,
            z,
            other,
        );
    }
    crate::parameters_regressor::body_fit::lemma_lengths(s.start, size as nat);
    assert(s.start.value(name) is Some);
    assert(s.start.value(name)->0@.len() == size);
    assert(0 <= i < plan.keys@.len() ==> keys[i] == plan.keys@[i]@);
    crate::parameters_regressor::slope_laws::law_steps_by_name(
        ops,
        crate::parameters_regressor::body_fit::bounds_of(fit.limits(), plan),
        s.delta@,
        keys,
        s.start,
        after,
        value,
        name,
        i,
        b,
    );
    s
}

} // verus!
