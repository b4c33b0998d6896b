//! Where the trials of a search start, and how they are judged.
use vstd::prelude::*;

use crate::kinematics::bone_poses::EndpointOps;
use crate::parameters_regressor::body_fit::{BodyFit, FitFailure};
use crate::parameters_regressor::fitting::BoneOps;
use crate::parameters_regressor::regressor::Regressor;
use crate::parameters_regressor::schedule::{AnchorOps, FitResult, Judged};
use crate::parameters_regressor::SolveOps;
use crate::phenotype::{BatchMismatch, PhenotypeValues};
use crate::skinning::MotionOps;
use crate::utils::mean::MeanOps;

verus! {

/// Element `b` has the age and the height, and all its other values are in the middle.
pub open spec fn is_in_the_middle<T>(
    p: PhenotypeValues<Vec<T>>,
    b: int,
    age: T,
    height: T,
    middle: T,
) -> bool {
    &&& p.age@[b] == age
    &&& p.height@[b] == height
    &&& p.gender@[b] == middle
    &&& p.muscle@[b] == middle
    &&& p.weight@[b] == middle
    &&& p.proportions@[b] == middle
    &&& p.cupsize@[b] == middle
    &&& p.firmness@[b] == middle
    &&& p.african@[b] == middle
    &&& p.asian@[b] == middle
    &&& p.caucasian@[b] == middle
}

/// A fit that is given no phenotype starts at the age that is set for it and in the middle
/// of all else. A trial at an age starts there, and in the middle of all else too.
pub proof fn law_fits_start_in_the_middle<
    'a,
    T: Copy,
    O: EndpointOps<T> + MotionOps<T> + BoneOps<T> + SolveOps<T> + MeanOps<T>,
>(
    regressor: Regressor<'a, T, O>,
    batch: nat,
    start: PhenotypeValues<Vec<T>>,
    fit: BodyFit<'a, T, O>,
    age: T,
    trial: PhenotypeValues<Vec<T>>,
    b: int,
)
    requires
        regressor.start_outcome(None, batch, Ok::<PhenotypeValues<Vec<T>>, BatchMismatch>(start)),
        call_ensures(
            <BodyFit<'a, T, O> as AnchorOps<T>>::at_age,
            (&fit, age),
            Ok::<PhenotypeValues<Vec<T>>, FitFailure>(trial),
        ),
    ensures
        0 <= b < batch ==> is_in_the_middle(
            start,
            b,
            regressor.how().start_age,
            regressor.how().middle,
            regressor.how().middle,
        ),
        0 <= b < fit.size() ==> is_in_the_middle(
            trial,
            b,
            age,
            fit.limits().middle,
            fit.limits().middle,
        ),
{
}

/// The last fit of a search starts, in each element, at the age and the height of that
/// element, and in the middle of all else.
pub proof fn law_last_fit_starts_at_ages<
    'a,
    T: Copy,
    O: EndpointOps<T> + MotionOps<T> + BoneOps<T> + SolveOps<T> + MeanOps<T>,
>(
    fit: BodyFit<'a, T, O>,
    ages: Vec<T>,
    heights: Vec<T>,
    p: PhenotypeValues<Vec<T>>,
    b: int,
)
    requires
        call_ensures(
            <BodyFit<'a, T, O> as AnchorOps<T>>::at_ages,
            (&fit, &ages, &heights),
            Ok::<PhenotypeValues<Vec<T>>, FitFailure>(p),
        ),
        ages@.len() == fit.size(),
        heights@.len() == fit.size(),
        0 <= b < fit.size(),
    ensures
        is_in_the_middle(p, b, ages@[b], heights@[b], fit.limits().middle),
{
    assert(crate::parameters_regressor::regressor::is_initial(
        ages@,
        heights@,
        fit.limits().middle,
        fit.size() as nat,
        p,
    ));
}

/// In exact arithmetic a trial is judged by the mean of the distances of the vertices that
/// count from those of the target, and its heights are those of its phenotype.
pub proof fn law_trials_are_judged_by_distance<
    'a,
    T: Copy,
    O: EndpointOps<T> + MotionOps<T> + BoneOps<T> + SolveOps<T> + MeanOps<T>,
>(
    fit: BodyFit<'a, T, O>,
    result: FitResult<Vec<Vec<[[T; 4]; 4]>>, PhenotypeValues<Vec<T>>, Vec<Vec<[T; 3]>>>,
    target: Vec<Vec<[T; 3]>>,
    batch: usize,
    judged: Judged<T>,
    value: spec_fn(T) -> real,
    b: int,
) -> (distances: Seq<real>)
    requires
        crate::scalar::is_exact(fit.with().ops, value),
        crate::utils::normals::measures_lengths(fit.with().ops, value),
        crate::models::shape_laws::averages_exactly(fit.with().ops, value),
        forall|x: T, y: T| #[trigger]
            call_ensures(O::millimeters, (fit.with().ops, x), y) ==> value(y) == 1000 as real
                * value(x),
        value(fit.with().zero) == 0 as real,
        call_ensures(
            <BodyFit<'a, T, O> as AnchorOps<T>>::judged,
            (&fit, &result, &target, batch),
            Ok::<Judged<T>, FitFailure>(judged),
        ),
        fit.partition().partition.unique_ids@.len() > 0,
        0 <= b < result.vertices@.len(),
    ensures
        judged.heights@ == result.phenotype.height@,
        judged.errors@.len() == result.vertices@.len(),
        distances.len() == fit.partition().partition.unique_ids@.len(),
        forall|i: int|
            0 <= i < distances.len() ==> #[trigger] distances[i] >= 0 as real && distances[i]
                * distances[i] == crate::utils::surface_laws::apart(
                value,
                result.vertices@[b]@[fit.partition().partition.unique_ids@[i] as int],
                target@[b]@[fit.partition().partition.unique_ids@[i] as int],
            ),
        value(judged.errors@[b]) * distances.len() as real == 1000 as real
            * crate::utils::sums::sum(|i: int| distances[i], distances.len()),
{
    let ids = fit.partition().partition.unique_ids;
    assert(ids.len() == ids@.len());
    let xs = crate::models::full_model::picked(result.vertices@[b]@, ids@);
    let ys = crate::models::full_model::picked(target@[b]@, ids@);
    assert(crate::utils::mean::is_mean_distance(
        fit.with().ops,
        fit.with().zero,
        xs,
        ys,
        judged.errors@[b],
    ));
    let distances = crate::utils::surface_laws::lemma_mean_distance(
        fit.with().ops,
        fit.with().zero,
        xs,
        ys,
        judged.errors@[b],
        value,
    );
    assert forall|i: int| 0 <= i < distances.len() implies #[trigger] distances[i] >= 0 as real
        && distances[i] * distances[i] == crate::utils::surface_laws::apart(
        value,
        result.vertices@[b]@[ids@[i] as int],
        target@[b]@[ids@[i] as int],
    ) by {
        assert(xs[i] == result.vertices@[b]@[ids@[i] as int]);
        assert(ys[i] == target@[b]@[ids@[i] as int]);
    }
    distances
}

} // verus!
