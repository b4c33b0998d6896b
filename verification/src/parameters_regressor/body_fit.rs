//! The fit of a body model: the operations of a fit, carried out on batches of
//! bodies.
use vstd::prelude::*;

use crate::kinematics::bone_poses::EndpointOps;
use crate::models::body::Model;
use crate::models::forward::{copy_rows, ForwardError, ForwardOutput, Numbers};
use crate::models::full_model::copy_row;
use crate::models::matrices::Matrices;
use crate::models::pose::PoseParameterization;
use crate::names::contains;
use crate::parameters_regressor::fitting::{
    register_bones, sanitize_pose_parameters, zero_translation_for_supported_joints, BoneOps,
};
use crate::parameters_regressor::phenotype_step::{macro_jacobian, tikhonov_solve};
use crate::parameters_regressor::schedule::{FitOps, Plan};
use crate::parameters_regressor::steps::{
    flatten, move_points, multiply_all, pick_all, repeat_rows, replace_root, residuals,
};
use crate::parameters_regressor::{
    apply_phenotype_delta, key_columns, perturb_phenotype, regularisation, repeat_phenotype,
    BoneRegions, SolveOps, StepBounds,
};
use crate::phenotype::{BatchMismatch, PhenotypeValues};
use crate::registration::{rigid_points_registration, Rigid};
use crate::rotation::identity_matrix;
use crate::skinning::MotionOps;

verus! {

/// What stops a fit.
#[derive(Debug, Clone)]
pub enum FitFailure {
    Forward(ForwardError),
    Phenotype(BatchMismatch),
    /// A key of the plan is not a label of the model, or occurs twice.
    Keys,
    /// Two lists that belong together do not fit.
    Shape,
    /// The batch has too many bones to be counted.
    TooMany,
}

/// How a fit goes about it.
#[derive(Debug, Clone)]
pub struct RegressorOptions<T> {
    /// How far a phenotype is moved to find its slopes.
    pub eps: T,
    /// At how many vertices slopes are taken, at most.
    pub n_points: usize,
    /// The number of rounds.
    pub max_n_iters: usize,
    /// How far a phenotype may move in a round, and where it may end.
    pub bounds: StepBounds<T>,
    /// How far it may move in the last fit of a search over ages.
    pub gentle: T,
    /// How much the phenotypes are held back, by their labels.
    pub reg_weights: Vec<(String, T)>,
    /// The phenotype that a fit starts from.
    pub middle: T,
    /// The age that a fit starts from.
    pub start_age: T,
}

/// A fit of bodies to a batch of targets.
#[verifier::reject_recursive_types(T)]
pub struct BodyFit<
    'a,
    T: Copy,
    O: EndpointOps<T> + MotionOps<T> + BoneOps<T> + SolveOps<T>,
> {
    model: &'a Model<T>,
    regions: &'a BoneRegions<T>,
    numbers: &'a Numbers<'a, O, T>,
    options: &'a RegressorOptions<T>,
    batch: usize,
}

fn small_enough(n: usize, bones: usize) -> (r: bool)
    ensures
        r == (n * bones <= u32::MAX),
{
    if n as u128 <= u64::MAX as u128 && bones as u128 <= u64::MAX as u128 {
        assert(n as u128 * bones as u128 <= u128::MAX) by (nonlinear_arith)
            requires
                n as u128 <= 0xffff_ffff_ffff_ffff,
                bones as u128 <= 0xffff_ffff_ffff_ffff,
        ;
        n as u128 * bones as u128 <= u32::MAX as u128
    } else {
        assert(n <= u64::MAX && bones <= u64::MAX);
        false
    }
}

/// Whether the bones of a batch of phenotypes can be counted.
fn can_count<T>(values: &PhenotypeValues<Vec<T>>, bones: usize) -> (r: bool)
    ensures
        r == crate::models::forward::countable(*values, bones as int),
{
    let ghost counts = crate::phenotype::rows::value_counts(*values);
    let lens: Vec<usize> = vec![
        values.age.len(),
        values.gender.len(),
        values.muscle.len(),
        values.weight.len(),
        values.height.len(),
        values.proportions.len(),
        values.cupsize.len(),
        values.firmness.len(),
    ];
    assert(counts.len() == 8 && lens@.len() == 8);
    assert(forall|i: int| 0 <= i < 8 ==> counts[i] == #[trigger] lens@[i]);
    let mut most: usize = lens[0];
    let ghost mut at: int = 0;
    for i in 0..8
        invariant
            counts.len() == 8,
            lens@.len() == 8,
            forall|i: int| 0 <= i < 8 ==> counts[i] == #[trigger] lens@[i],
            0 <= at < 8,
            most == lens@[at],
            forall|j: int| 0 <= j < i ==> #[trigger] lens@[j] <= most,
    {
        if lens[i] > most {
            most = lens[i];
            proof {
                at = i as int;
            }
        }
    }
    proof {
        assert(counts[at] == most as nat);
        assert forall|j: int| 0 <= j < counts.len() implies #[trigger] counts[j] <= most as nat by {
            assert(lens@[j] <= most);
        }
        assert(crate::phenotype::rows::is_largest(counts, most as nat));
        assert forall|n: nat| #[trigger] crate::phenotype::rows::is_largest(counts, n) implies n
            == most by {
            let k = choose|k: int| 0 <= k < counts.len() && counts[k] == n;
            assert(counts[k] <= most);
            assert(counts[at] <= n);
        }
    }
    bones <= u32::MAX as usize && small_enough(most, bones)
}

impl<'a, T: Copy, O: EndpointOps<T> + MotionOps<T> + BoneOps<T> + SolveOps<T>>
    BodyFit<'a, T, O> {
    pub closed spec fn body_model(&self) -> Model<T> {
        *self.model
    }

    pub closed spec fn partition(&self) -> BoneRegions<T> {
        *self.regions
    }

    pub closed spec fn with(&self) -> Numbers<'a, O, T> {
        *self.numbers
    }

    pub closed spec fn limits(&self) -> RegressorOptions<T> {
        *self.options
    }

    pub closed spec fn held_back(&self) -> Seq<(String, T)> {
        self.options.reg_weights@
    }

    pub closed spec fn size(&self) -> int {
        self.batch as int
    }

    #[verifier::type_invariant]
    closed spec fn inv(&self) -> bool {
        &&& self.model.wf()
        &&& self.regions.fits(self.model.figure.bone_labels@.len() as int)
    }

    /// The fit of a model to a batch of targets.
    pub fn new(
        model: &'a Model<T>,
        regions: &'a BoneRegions<T>,
        numbers: &'a Numbers<'a, O, T>,
        options: &'a RegressorOptions<T>,
        batch: usize,
    ) -> (r: Self)
        requires
            model.wf(),
            regions.fits(model.figure.bone_labels@.len() as int),
        ensures
            r.body_model() == *model,
            r.partition() == *regions,
            r.with() == *numbers,
            r.limits() == *options,
            r == fit_over(*model, *regions, *numbers, *options, batch),
            r.size() == batch,
    {
        BodyFit { model, regions, numbers, options, batch }
    }
}

impl<'a, T: Copy, O: EndpointOps<T> + MotionOps<T> + BoneOps<T> + SolveOps<T>>
    BodyFit<'a, T, O> {
    pub(crate) fn numbers(&self) -> (r: &'a Numbers<'a, O, T>)
        ensures
            *r == self.with(),
    {
        self.numbers
    }

    pub(crate) fn options(&self) -> (r: &'a RegressorOptions<T>)
        ensures
            *r == self.limits(),
    {
        self.options
    }

    pub(crate) fn batch(&self) -> (r: usize)
        ensures
            r == self.size(),
    {
        self.batch
    }
}

/// The fit of a model to a batch of targets, made of its parts.
pub closed spec fn fit_over<
    'a,
    T: Copy,
    O: EndpointOps<T> + MotionOps<T> + BoneOps<T> + SolveOps<T>,
>(
    model: Model<T>,
    regions: BoneRegions<T>,
    numbers: Numbers<'a, O, T>,
    options: RegressorOptions<T>,
    batch: usize,
) -> BodyFit<'a, T, O> {
    BodyFit { model: &model, regions: &regions, numbers: &numbers, options: &options, batch }
}

/// The parts of a fit are those that it was made of.
pub proof fn lemma_fit_over<
    'a,
    T: Copy,
    O: EndpointOps<T> + MotionOps<T> + BoneOps<T> + SolveOps<T>,
>(
    model: Model<T>,
    regions: BoneRegions<T>,
    numbers: Numbers<'a, O, T>,
    options: RegressorOptions<T>,
    batch: usize,
)
    ensures
        ({
            let fit = fit_over(model, regions, numbers, options, batch);
            &&& fit.body_model() == model
            &&& fit.partition() == regions
            &&& fit.with() == numbers
            &&& fit.limits() == options
            &&& fit.size() == batch
        }),
{
}

/// Every element of `from` has a counterpart in `to`, and every point too.
pub open spec fn counterparts<A>(from: Seq<Vec<A>>, to: Seq<Vec<A>>) -> bool {
    &&& from.len() <= to.len()
    &&& forall|b: int| 0 <= b < from.len() ==> (#[trigger] from[b])@.len() <= to[b]@.len()
}

fn has_counterparts<A>(from: &Vec<Vec<A>>, to: &Vec<Vec<A>>) -> (r: bool)
    ensures
        r == counterparts(from@, to@),
{
    if from.len() > to.len() {
        return false;
    }
    for b in 0..from.len()
        invariant
            from@.len() <= to@.len(),
            forall|d: int| 0 <= d < b ==> (#[trigger] from@[d])@.len() <= to@[d]@.len(),
    {
        if from[b].len() > to[b].len() {
            assert(from@[b as int]@.len() > to@[b as int]@.len());
            return false;
        }
    }
    true
}

/// There are `batch` rows of `n` entries.
pub open spec fn has_shape<A>(rows: Seq<Vec<A>>, batch: int, n: int) -> bool {
    &&& rows.len() == batch
    &&& forall|b: int| 0 <= b < rows.len() ==> (#[trigger] rows[b])@.len() == n
}

fn is_shaped<A>(rows: &Vec<Vec<A>>, batch: usize, n: usize) -> (r: bool)
    ensures
        r == has_shape(rows@, batch as int, n as int),
{
    if rows.len() != batch {
        return false;
    }
    for b in 0..rows.len()
        invariant
            forall|d: int| 0 <= d < b ==> (#[trigger] rows@[d])@.len() == n,
    {
        if rows[b].len() != n {
            assert(rows@[b as int]@.len() != n);
            return false;
        }
    }
    true
}

fn is_sound<T: Copy>(body: &ForwardOutput<T>) -> (r: bool)
    ensures
        r == body.wf(),
{
    for b in 0..body.skeletons.len()
        invariant
            forall|d: int|
                0 <= d < b ==> {
                    let s = #[trigger] body.skeletons@[d];
                    &&& s.rest@.len() > 0
                    &&& s.delta@.len() == s.rest@.len()
                    &&& s.poses@.len() == s.rest@.len()
                },
    {
        let s = &body.skeletons[b];
        let n: usize = s.rest.len();
        if n == 0 || s.delta.len() != n || s.poses.len() != n {
            assert(body.skeletons@[b as int] == *s);
            return false;
        }
    }
    true
}

/// `turns` are the transforms that the bones need, each from the vertices that
/// it moves.
pub open spec fn are_turns<T, O: BoneOps<T>>(
    ops: &O,
    zero: T,
    one: T,
    reference: Seq<Vec<[T; 3]>>,
    target: Seq<Vec<[T; 3]>>,
    regions: BoneRegions<T>,
    turns: Seq<Vec<[[T; 4]; 4]>>,
) -> bool {
    let p = regions.partition;
    let n = p.unique_ids@.len() as int;
    &&& has_shape(turns, reference.len() as int, p.joint_vertex_sets@.len() as int)
    &&& forall|b: int, j: int|
        0 <= b < reference.len() && 0 <= j < p.joint_vertex_sets@.len()
            ==> crate::parameters_regressor::fitting::is_bone_transform(
            ops,
            zero,
            one,
            crate::parameters_regressor::fitting::points_at(
                crate::parameters_regressor::steps::flattened(reference),
                b * n,
                p.joint_vertex_sets@[j]@,
            ),
            crate::parameters_regressor::fitting::points_at(
                crate::parameters_regressor::steps::flattened(target),
                b * n,
                p.joint_vertex_sets@[j]@,
            ),
            p.vertex_joint_weights@[j]@,
            crate::rotation::rows4(#[trigger] turns[b]@[j]),
        )
}

/// The points and the bones are those of `batch` bodies.
pub open spec fn bones_movable<T>(
    reference: Seq<Vec<[T; 3]>>,
    target: Seq<Vec<[T; 3]>>,
    bones: Seq<Vec<[[T; 4]; 4]>>,
    batch: int,
    used: int,
    count: int,
) -> bool {
    &&& has_shape(reference, batch, used)
    &&& has_shape(bones, batch, count)
    &&& batch * used <= crate::parameters_regressor::steps::flattened(target).len()
}

/// The keys are labels, and none occurs twice.
pub open spec fn keys_known(labels: Seq<Seq<char>>, keys: Seq<Seq<char>>) -> bool {
    &&& keys.no_duplicates()
    &&& forall|i: int| 0 <= i < keys.len() ==> labels.contains(#[trigger] keys[i])
}

fn knows_keys(labels: &Vec<&'static str>, keys: &Vec<&'static str>) -> (r: bool)
    ensures
        r == keys_known(crate::names::str_views(labels@), crate::names::str_views(keys@)),
{
    let ghost all = crate::names::str_views(labels@);
    let ghost names = crate::names::str_views(keys@);
    for i in 0..keys.len()
        invariant
            all == crate::names::str_views(labels@),
            names == crate::names::str_views(keys@),
            forall|k: int| 0 <= k < i ==> all.contains(#[trigger] names[k]),
            forall|j: int, k: int| 0 <= j < k < i ==> names[j] != names[k],
    {
        assert(names[i as int] == keys@[i as int]@);
        if !contains(labels, keys[i]) {
            assert(!all.contains(names[i as int]));
            return false;
        }
        for j in 0..i
            invariant
                i < keys@.len(),
                names == crate::names::str_views(keys@),
                forall|k: int| 0 <= k < j ==> #[trigger] names[k] != names[i as int],
        {
            assert(names[j as int] == keys@[j as int]@);
            if crate::names::same(keys[j], keys[i]) {
                assert(names[j as int] == names[i as int]);
                return false;
            }
        }
    }
    true
}

/// What is made on the way to a change of the phenotype.
pub struct StepParts<T> {
    pub start: PhenotypeValues<Vec<T>>,
    pub poses: Vec<Vec<[[T; 4]; 4]>>,
    pub repeated: PhenotypeValues<Vec<T>>,
    pub perturbed: PhenotypeValues<Vec<T>>,
    pub bodies: ForwardOutput<T>,
    pub used: Vec<Vec<[T; 3]>>,
    /// One over how far each label was moved.
    pub per_step: T,
    pub jacobian: Vec<Vec<Vec<T>>>,
    pub residual: Vec<Vec<T>>,
    pub columns: Vec<usize>,
    pub weights: Vec<T>,
    pub delta: Vec<Vec<T>>,
}

/// How far the phenotype may move under the plan.
pub open spec fn bounds_of<T>(settings: RegressorOptions<T>, plan: Plan<T>) -> StepBounds<T> {
    match plan.most {
        Some(most) => StepBounds { most, ..settings.bounds },
        None => settings.bounds,
    }
}

impl<'a, T: Copy, O: EndpointOps<T> + MotionOps<T> + BoneOps<T> + SolveOps<T>>
    BodyFit<'a, T, O> {
    /// The labels that the model can be fitted by.
    pub open spec fn labels(&self) -> Seq<Seq<char>> {
        crate::models::full_model::label_list(self.body_model().figure.all_phenotypes)
    }

    /// The parts lead from a pose and a phenotype to a change of the keys:
    /// bodies with each label perturbed, their slopes, and the change that
    /// these and the residual call for.
    pub open spec fn are_parts(
        &self,
        keys: Seq<&'static str>,
        pose: Seq<Vec<[[T; 4]; 4]>>,
        phenotype: PhenotypeValues<Vec<T>>,
        found: Seq<Vec<[T; 3]>>,
        target: Seq<Vec<[T; 3]>>,
        s: StepParts<T>,
    ) -> bool {
        let model = self.body_model();
        let labels = self.labels();
        let n = labels.len() as int;
        let ops = self.with().ops;
        let samples = self.partition().sample_idx@;
        &&& crate::parameters_regressor::fields(s.start) == crate::parameters_regressor::fields(
            phenotype,
        )
        &&& crate::parameters_regressor::steps::are_repeated(pose, n + 1, s.poses@)
        &&& crate::parameters_regressor::repeat_outcome(
            phenotype,
            self.size() as nat,
            (n + 1) as nat,
            Ok(s.repeated),
        )
        &&& crate::parameters_regressor::is_perturbed(
            ops,
            self.limits().eps,
            labels,
            s.repeated,
            s.perturbed,
        )
        &&& crate::models::forward::forward_outcome(
            ops,
            self.with().third,
            self.with().zero,
            self.with().one,
            model,
            Some(s.poses@),
            s.perturbed,
            Seq::<(String, Vec<T>)>::empty(),
            Some(PoseParameterization::RootRelativeWorld),
            Ok(s.bodies),
        )
        &&& crate::parameters_regressor::steps::are_picked(
            s.bodies.vertices@,
            self.partition().partition.unique_ids@,
            s.used@,
        )
        &&& crate::scalar::quotient_of(ops, self.with().one, self.limits().eps, s.per_step)
        &&& s.jacobian@.len() == self.size()
        &&& forall|b: int|
            0 <= b < s.jacobian@.len() ==> (#[trigger] s.jacobian@[b])@.len() == 3 * samples.len()
        &&& forall|b: int, k: int, c: int|
            0 <= b < self.size() && 0 <= k < samples.len() && 0 <= c < 3
                ==> #[trigger] crate::parameters_regressor::phenotype_step::is_row(
                ops,
                s.per_step,
                s.used@,
                samples,
                n,
                s.jacobian@[b]@,
                b,
                k,
                c,
            )
        &&& s.residual@.len() == target.len()
        &&& forall|b: int|
            0 <= b < s.residual@.len() ==> crate::parameters_regressor::steps::are_residuals(
                ops,
                target[b]@,
                found[b]@,
                samples,
                (#[trigger] s.residual@[b])@,
            )
        &&& s.columns@.len() == keys.len()
        &&& forall|i: int|
            0 <= i < s.columns@.len() ==> crate::names::last_at(labels, keys[i]@) == Some(
                #[trigger] s.columns@[i] as int,
            )
        &&& s.weights@.len() == keys.len()
        &&& forall|i: int|
            0 <= i < s.weights@.len() ==> #[trigger] s.weights@[i]
                == crate::parameters_regressor::weight_of(
                self.held_back(),
                keys[i]@,
                self.with().one,
            )
        &&& s.delta@.len() == self.size()
        &&& forall|b: int|
            0 <= b < s.delta@.len() ==> crate::parameters_regressor::phenotype_step::is_solution(
                ops,
                s.jacobian@[b]@,
                s.columns@,
                s.residual@[b]@,
                s.weights@,
                self.with().zero,
                (#[trigger] s.delta@[b])@,
            )
    }
}

proof fn lemma_labels(p: Seq<Seq<char>>)
    requires
        p == crate::models::full_model::label_list(true),
    ensures
        p.len() == 11,
        p.no_duplicates(),
{
    reveal_strlit("gender");
    reveal_strlit("age");
    reveal_strlit("muscle");
    reveal_strlit("weight");
    reveal_strlit("height");
    reveal_strlit("proportions");
    reveal_strlit("cupsize");
    reveal_strlit("firmness");
    reveal_strlit("african");
    reveal_strlit("asian");
    reveal_strlit("caucasian");
    assert(p[0].len() == 6 && p[0][0] == 'g');
    assert(p[1].len() == 3);
    assert(p[2].len() == 6 && p[2][0] == 'm');
    assert(p[3].len() == 6 && p[3][0] == 'w');
    assert(p[4].len() == 6 && p[4][0] == 'h');
    assert(p[5].len() == 11);
    assert(p[6].len() == 7 && p[6][0] == 'c');
    assert(p[7].len() == 8);
    assert(p[8].len() == 7 && p[8][0] == 'a');
    assert(p[9].len() == 5);
    assert(p[10].len() == 9);
}

/// The labels of a model differ.
pub proof fn lemma_labels_distinct(all: bool)
    ensures
        crate::models::full_model::label_list(all).no_duplicates(),
        crate::models::full_model::label_list(all).len() <= 11,
{
    let whole = crate::models::full_model::label_list(true);
    lemma_labels(whole);
    let labels = crate::models::full_model::label_list(all);
    assert(labels =~= whole.take(labels.len() as int));
    assert forall|i: int, j: int| 0 <= i < labels.len() && 0 <= j < labels.len() && i != j implies
        labels[i] != labels[j] by {
        assert(whole[i] != whole[j]);
    }
}

/// Every label of a model has a value in a phenotype.
proof fn lemma_labels_known<T>(p: PhenotypeValues<Vec<T>>, all: bool)
    ensures
        forall|i: int|
            0 <= i < crate::models::full_model::label_list(all).len() ==> p.value(
                #[trigger] crate::models::full_model::label_list(all)[i],
            ) is Some,
{
    let labels = crate::models::full_model::label_list(all);
    assert forall|i: int| 0 <= i < labels.len() implies p.value(#[trigger] labels[i]) is Some by {
        assert(i == 0 || i == 1 || i == 2 || i == 3 || i == 4 || i == 5 || i == 6 || i == 7 || i
            == 8 || i == 9 || i == 10);
    }
}

/// The values of a phenotype by their labels.
proof fn lemma_values<T>(p: PhenotypeValues<Vec<T>>)
    ensures
        p.value("age"@) == Some(p.age),
        p.value("gender"@) == Some(p.gender),
        p.value("muscle"@) == Some(p.muscle),
        p.value("weight"@) == Some(p.weight),
        p.value("height"@) == Some(p.height),
        p.value("proportions"@) == Some(p.proportions),
        p.value("cupsize"@) == Some(p.cupsize),
        p.value("firmness"@) == Some(p.firmness),
        p.value("african"@) == Some(p.african),
        p.value("asian"@) == Some(p.asian),
        p.value("caucasian"@) == Some(p.caucasian),
{
    let whole = crate::models::full_model::label_list(true);
    lemma_labels(whole);
    assert(whole[0] == "gender"@ && whole[1] == "age"@ && whole[2] == "muscle"@);
    assert(whole[3] == "weight"@ && whole[4] == "height"@ && whole[5] == "proportions"@);
    assert(whole[6] == "cupsize"@ && whole[7] == "firmness"@ && whole[8] == "african"@);
    assert(whole[9] == "asian"@ && whole[10] == "caucasian"@);
}

/// All lists of a phenotype have the same length, looked at by label or by
/// field.
pub proof fn lemma_lengths<T>(p: PhenotypeValues<Vec<T>>, n: nat)
    ensures
        crate::parameters_regressor::all_of_len(p, n) <==> forall|f: int|
            0 <= f < 11 ==> (#[trigger] crate::parameters_regressor::fields(p)[f]).len() == n,
{
    let fs = crate::parameters_regressor::fields(p);
    lemma_values(p);
    if crate::parameters_regressor::all_of_len(p, n) {
        assert forall|f: int| 0 <= f < 11 implies (#[trigger] fs[f]).len() == n by {
            assert(f == 0 || f == 1 || f == 2 || f == 3 || f == 4 || f == 5 || f == 6 || f == 7
                || f == 8 || f == 9 || f == 10);
            assert(p.value("age"@)->0@.len() == n);
            assert(p.value("gender"@)->0@.len() == n);
            assert(p.value("muscle"@)->0@.len() == n);
            assert(p.value("weight"@)->0@.len() == n);
            assert(p.value("height"@)->0@.len() == n);
            assert(p.value("proportions"@)->0@.len() == n);
            assert(p.value("cupsize"@)->0@.len() == n);
            assert(p.value("firmness"@)->0@.len() == n);
            assert(p.value("african"@)->0@.len() == n);
            assert(p.value("asian"@)->0@.len() == n);
            assert(p.value("caucasian"@)->0@.len() == n);
        }
    }
    if forall|f: int| 0 <= f < 11 ==> (#[trigger] fs[f]).len() == n {
        assert(fs[0].len() == n && fs[1].len() == n && fs[2].len() == n && fs[3].len() == n
            && fs[4].len() == n && fs[5].len() == n && fs[6].len() == n && fs[7].len() == n
            && fs[8].len() == n && fs[9].len() == n && fs[10].len() == n);
        assert(crate::parameters_regressor::all_of_len(p, n));
    }
}

/// A phenotype whose lists have `n` values is a batch of `n`.
proof fn lemma_batch_size<T>(p: PhenotypeValues<Vec<T>>, n: nat)
    requires
        crate::parameters_regressor::all_of_len(p, n),
    ensures
        crate::phenotype::rows::is_largest(crate::phenotype::rows::value_counts(p), n),
        forall|m: nat| #[trigger]
            crate::phenotype::rows::is_largest(crate::phenotype::rows::value_counts(p), m) ==> m
                == n,
{
    lemma_lengths(p, n);
    let fs = crate::parameters_regressor::fields(p);
    let counts = crate::phenotype::rows::value_counts(p);
    assert(fs[0].len() == n && fs[1].len() == n && fs[2].len() == n && fs[3].len() == n
        && fs[4].len() == n && fs[5].len() == n && fs[6].len() == n && fs[7].len() == n);
    assert(counts[0] == n);
    assert forall|i: int| 0 <= i < counts.len() implies #[trigger] counts[i] == n by {
        assert(i == 0 || i == 1 || i == 2 || i == 3 || i == 4 || i == 5 || i == 6 || i == 7);
    }
}

fn copy_phenotype<T: Copy>(p: &PhenotypeValues<Vec<T>>) -> (r: PhenotypeValues<Vec<T>>)
    ensures
        crate::parameters_regressor::fields(r) == crate::parameters_regressor::fields(*p),
{
    PhenotypeValues {
        age: copy_row(&p.age),
        gender: copy_row(&p.gender),
        muscle: copy_row(&p.muscle),
        weight: copy_row(&p.weight),
        height: copy_row(&p.height),
        proportions: copy_row(&p.proportions),
        cupsize: copy_row(&p.cupsize),
        firmness: copy_row(&p.firmness),
        african: copy_row(&p.african),
        asian: copy_row(&p.asian),
        caucasian: copy_row(&p.caucasian),
    }
}

fn is_batch_of<T>(p: &PhenotypeValues<Vec<T>>, n: usize) -> (r: bool)
    ensures
        r == crate::parameters_regressor::all_of_len(*p, n as nat),
{
    proof {
        lemma_lengths(*p, n as nat);
        let fs = crate::parameters_regressor::fields(*p);
        if fs[0].len() == n && fs[1].len() == n && fs[2].len() == n && fs[3].len() == n
            && fs[4].len() == n && fs[5].len() == n && fs[6].len() == n && fs[7].len() == n
            && fs[8].len() == n && fs[9].len() == n && fs[10].len() == n {
            assert forall|f: int| 0 <= f < 11 implies (#[trigger] fs[f]).len() == n by {
                assert(f == 0 || f == 1 || f == 2 || f == 3 || f == 4 || f == 5 || f == 6 || f == 7
                    || f == 8 || f == 9 || f == 10);
            }
        }
    }
    p.age.len() == n && p.gender.len() == n && p.muscle.len() == n && p.weight.len() == n
        && p.height.len() == n && p.proportions.len() == n && p.cupsize.len() == n
        && p.firmness.len() == n && p.african.len() == n && p.asian.len() == n
        && p.caucasian.len() == n
}

fn picks_fit<A>(points: &Vec<Vec<A>>, at: &Vec<u32>) -> (r: bool)
    ensures
        r == crate::parameters_regressor::steps::picks_within(points@, at@),
{
    for b in 0..points.len()
        invariant
            forall|d: int, i: int|
                0 <= d < b && 0 <= i < at@.len() ==> (#[trigger] at@[i]) < (
                #[trigger] points@[d])@.len(),
    {
        let n: usize = points[b].len();
        for i in 0..at.len()
            invariant
                b < points@.len(),
                n == points@[b as int]@.len(),
                forall|k: int| 0 <= k < i ==> (#[trigger] at@[k]) < n,
        {
            if at[i] as usize >= n {
                assert(at@[i as int] >= points@[b as int]@.len());
                return false;
            }
        }
    }
    true
}

/// Every index is below `n`.
pub open spec fn all_under(at: Seq<u32>, n: int) -> bool {
    forall|i: int| 0 <= i < at.len() ==> (#[trigger] at[i]) < n
}

fn are_under(at: &Vec<u32>, n: usize) -> (r: bool)
    ensures
        r == all_under(at@, n as int),
{
    for i in 0..at.len()
        invariant
            forall|k: int| 0 <= k < i ==> (#[trigger] at@[k]) < n,
    {
        if at[i] as usize >= n {
            assert(at@[i as int] >= n);
            return false;
        }
    }
    true
}

impl<'a, T: Copy, O: EndpointOps<T> + MotionOps<T> + BoneOps<T> + SolveOps<T>>
    BodyFit<'a, T, O> {
    /// The number of bodies that the slopes are taken from.
    pub open spec fn perturbed_size(&self) -> int {
        self.size() * (self.labels().len() + 1)
    }

    /// The lists of a step fit together.
    pub open spec fn step_fits(
        &self,
        pose: Seq<Vec<[[T; 4]; 4]>>,
        phenotype: PhenotypeValues<Vec<T>>,
        found: Seq<Vec<[T; 3]>>,
        target: Seq<Vec<[T; 3]>>,
    ) -> bool {
        let samples = self.partition().sample_idx@;
        let ids = self.partition().partition.unique_ids@;
        &&& pose.len() == self.size()
        &&& found.len() == self.size()
        &&& target.len() == self.size()
        &&& crate::parameters_regressor::all_of_len(phenotype, self.size() as nat)
        &&& crate::parameters_regressor::steps::picks_within(found, samples)
        &&& crate::parameters_regressor::steps::picks_within(target, samples)
        &&& all_under(samples, ids.len() as int)
        &&& all_under(ids, self.body_model().figure.template_vertices@.len() as int)
    }

    /// What a step of the phenotype comes to.
    pub open spec fn step_outcome(
        &self,
        plan: Plan<T>,
        pose: Seq<Vec<[[T; 4]; 4]>>,
        phenotype: PhenotypeValues<Vec<T>>,
        found: Seq<Vec<[T; 3]>>,
        target: Seq<Vec<[T; 3]>>,
        r: Result<PhenotypeValues<Vec<T>>, FitFailure>,
    ) -> bool {
        let keys = crate::names::str_views(plan.keys@);
        let bones = self.body_model().figure.bone_labels@.len() as int;
        match r {
            Ok(after) => {
                &&& keys_known(self.labels(), keys)
                &&& self.step_fits(pose, phenotype, found, target)
                &&& exists|s: StepParts<T>|
                    {
                        &&& #[trigger] self.are_parts(
                            plan.keys@,
                            pose,
                            phenotype,
                            found,
                            target,
                            s,
                        )
                        &&& crate::parameters_regressor::are_stepped(
                            self.with().ops,
                            bounds_of(self.limits(), plan),
                            s.delta@,
                            keys,
                            s.start,
                            after,
                            keys.len() as int,
                        )
                    }
            },
            Err(FitFailure::Keys) => !keys_known(self.labels(), keys),
            Err(FitFailure::Shape) => !self.step_fits(pose, phenotype, found, target),
            Err(FitFailure::TooMany) => self.perturbed_size() > usize::MAX || bones > u32::MAX
                || self.perturbed_size() * bones > u32::MAX,
            Err(FitFailure::Forward(e)) => exists|
                poses: Vec<Vec<[[T; 4]; 4]>>,
                repeated: PhenotypeValues<Vec<T>>,
                perturbed: PhenotypeValues<Vec<T>>,
            |
                {
                    &&& #[trigger] crate::parameters_regressor::steps::are_repeated(
                        pose,
                        (self.labels().len() + 1) as int,
                        poses@,
                    )
                    &&& crate::parameters_regressor::repeat_outcome(
                        phenotype,
                        self.size() as nat,
                        (self.labels().len() + 1) as nat,
                        Ok(repeated),
                    )
                    &&& #[trigger] crate::parameters_regressor::is_perturbed(
                        self.with().ops,
                        self.limits().eps,
                        self.labels(),
                        repeated,
                        perturbed,
                    )
                    &&& crate::models::forward::forward_outcome(
                        self.with().ops,
                        self.with().third,
                        self.with().zero,
                        self.with().one,
                        self.body_model(),
                        Some(poses@),
                        perturbed,
                        Seq::<(String, Vec<T>)>::empty(),
                        Some(PoseParameterization::RootRelativeWorld),
                        Err(e),
                    )
                },
            Err(FitFailure::Phenotype(_)) => false,
        }
    }

    /// The phenotype with the keys of the plan moved toward the target.
    fn stepped(
        &self,
        plan: &Plan<T>,
        pose: &Vec<Vec<[[T; 4]; 4]>>,
        phenotype: &PhenotypeValues<Vec<T>>,
        found: &Vec<Vec<[T; 3]>>,
        target: &Vec<Vec<[T; 3]>>,
    ) -> (r: Result<PhenotypeValues<Vec<T>>, FitFailure>)
        ensures
            self.step_outcome(*plan, pose@, *phenotype, found@, target@, r),
    {
        proof {
            use_type_invariant(self);
            lemma_labels_distinct(self.body_model().figure.all_phenotypes);
        }
        let model = self.model;
        let ops = self.numbers.ops;
        let zero = self.numbers.zero;
        let batch: usize = self.batch;
        let samples = &self.regions.sample_idx;
        let ids = &self.regions.partition.unique_ids;
        let labels = model.phenotype_labels();
        let n: usize = labels.len();
        assert(crate::names::str_views(labels@) == self.labels());
        assert(n == self.labels().len());
        if !knows_keys(&labels, &plan.keys) {
            return Err(FitFailure::Keys);
        }
        if pose.len() != batch || found.len() != batch || target.len() != batch || !is_batch_of(
            phenotype,
            batch,
        ) || !picks_fit(found, samples) || !picks_fit(target, samples) || !are_under(
            samples,
            ids.len(),
        ) || !are_under(ids, model.figure.template_vertices.len()) {
            return Err(FitFailure::Shape);
        }
        let repeats: usize = n + 1;
        let total: usize = match batch.checked_mul(repeats) {
            Some(total) => total,
            None => {
                return Err(FitFailure::TooMany);
            },
        };
        let poses = repeat_rows(pose, repeats);
        let repeated = match repeat_phenotype(phenotype, batch, repeats) {
            Ok(repeated) => repeated,
            Err(e) => {
                proof {
                    lemma_lengths(*phenotype, batch as nat);
                }
                return Err(FitFailure::Phenotype(e));
            },
        };
        let ghost first = repeated;
        proof {
            let fs = crate::parameters_regressor::fields(repeated);
            assert forall|f: int| 0 <= f < 11 implies (#[trigger] fs[f]).len() == total by {
                assert(crate::parameters_regressor::serves(
                    crate::parameters_regressor::fields(*phenotype)[f].len(),
                    batch as nat,
                ));
            }
            lemma_lengths(repeated, total as nat);
            lemma_labels_known(repeated, self.body_model().figure.all_phenotypes);
            assert forall|i: int| 0 <= i < labels@.len() implies repeated.value(
                (#[trigger] labels@[i])@,
            ) is Some by {
                assert(self.labels()[i] == labels@[i]@);
            }
        }
        let perturbed = match perturb_phenotype(
            repeated,
            &labels,
            total,
            self.options.eps,
            ops,
        ) {
            Ok(perturbed) => perturbed,
            Err(_) => {
                return Err(FitFailure::Keys);
            },
        };
        proof {
            lemma_batch_size(perturbed, total as nat);
        }
        if !can_count(&perturbed, model.figure.bone_labels.len()) {
            return Err(FitFailure::TooMany);
        }
        let bodies = match model.forward(
            Some(&poses),
            &perturbed,
            Some(PoseParameterization::RootRelativeWorld),
            self.numbers,
        ) {
            Ok(bodies) => bodies,
            Err(e) => {
                assert(crate::parameters_regressor::steps::are_repeated(
                    pose@,
                    (self.labels().len() + 1) as int,
                    poses@,
                ));
                assert(crate::parameters_regressor::is_perturbed(
                    ops,
                    self.limits().eps,
                    self.labels(),
                    first,
                    perturbed,
                ));
                assert(crate::parameters_regressor::repeat_outcome(
                    *phenotype,
                    self.size() as nat,
                    (self.labels().len() + 1) as nat,
                    Ok(first),
                ));
                assert(crate::models::forward::forward_outcome(
                    self.with().ops,
                    self.with().third,
                    self.with().zero,
                    self.with().one,
                    self.body_model(),
                    Some(poses@),
                    perturbed,
                    Seq::<(String, Vec<T>)>::empty(),
                    Some(PoseParameterization::RootRelativeWorld),
                    Err(e),
                ));
                return Err(FitFailure::Forward(e));
            },
        };
        proof {
            crate::models::forward::lemma_forward_size(
                ops,
                self.numbers.third,
                zero,
                self.numbers.one,
                *model,
                Some(poses@),
                perturbed,
                Seq::<(String, Vec<T>)>::empty(),
                Some(PoseParameterization::RootRelativeWorld),
                bodies,
            );
            assert(bodies.vertices@.len() == total);
            assert forall|b: int, i: int|
                0 <= b < bodies.vertices@.len() && 0 <= i < ids@.len() implies (
            #[trigger] ids@[i]) < (#[trigger] bodies.vertices@[b])@.len() by {
                assert(ids@[i] < model.figure.template_vertices@.len());
            }
        }
        let used = match pick_all(&bodies.vertices, ids) {
            Some(used) => used,
            None => {
                return Err(FitFailure::Shape);
            },
        };
        proof {
            assert forall|i: int, k: int|
                0 <= i < used@.len() && 0 <= k < samples@.len() implies (#[trigger] samples@[k])
                < (#[trigger] used@[i])@.len() by {
                assert(samples@[k] < ids@.len());
                assert(used@[i]@.len() == ids@.len());
            }
        }
        let per_step = ops.quotient(self.numbers.one, self.options.eps);
        let jacobian = macro_jacobian(&used, samples, n, batch, ops, per_step);
        let residual = residuals(target, found, samples, ops);
        proof {
            assert forall|i: int| 0 <= i < plan.keys@.len() implies self.labels().contains(
                (#[trigger] plan.keys@[i])@,
            ) by {
                assert(crate::names::str_views(plan.keys@)[i] == plan.keys@[i]@);
            }
        }
        let columns = key_columns(&labels, &plan.keys);
        let weights = regularisation(&plan.keys, &self.options.reg_weights, self.numbers.one);
        proof {
            assert forall|b: int, i: int, k: int|
                0 <= b < jacobian@.len() && 0 <= i < jacobian@[b]@.len() && 0 <= k
                    < columns@.len() implies (#[trigger] columns@[k]) < (
            #[trigger] jacobian@[b]@[i])@.len() by {
                let at = i / 3;
                let c = i % 3;
                assert(i == 3 * at + c);
                assert(crate::parameters_regressor::phenotype_step::is_row(
                    ops,
                    per_step,
                    used@,
                    samples@,
                    n as int,
                    jacobian@[b]@,
                    b,
                    at,
                    c,
                ));
                crate::names::lemma_last_at(self.labels(), plan.keys@[k]@);
            }
        }
        let delta = tikhonov_solve(&jacobian, &residual, &columns, &weights, zero, ops);
        let mut after = copy_phenotype(phenotype);
        let ghost before = after;
        let ghost s = StepParts {
            start: before,
            poses,
            repeated: first,
            perturbed,
            bodies,
            used,
            per_step,
            jacobian,
            residual,
            columns,
            weights,
            delta,
        };
        assert(self.are_parts(plan.keys@, pose@, *phenotype, found@, target@, s));
        proof {
            lemma_lengths(*phenotype, batch as nat);
            lemma_lengths(before, batch as nat);
            assert forall|b: int| 0 <= b < delta@.len() implies (#[trigger] delta@[b])@.len()
                == plan.keys@.len() by {
                assert(crate::parameters_regressor::phenotype_step::is_solution(
                    ops,
                    jacobian@[b]@,
                    columns@,
                    residual@[b]@,
                    weights@,
                    zero,
                    delta@[b]@,
                ));
            }
            lemma_labels_known(before, self.body_model().figure.all_phenotypes);
            assert forall|i: int| 0 <= i < plan.keys@.len() implies before.value(
                (#[trigger] plan.keys@[i])@,
            ) is Some by {
                let name = crate::names::str_views(plan.keys@)[i];
                assert(self.labels().contains(name));
                let j = choose|j: int| 0 <= j < self.labels().len() && self.labels()[j] == name;
                assert(before.value(self.labels()[j]) is Some);
            }
        }
        let bounds = match plan.most {
            Some(most) => StepBounds { most, ..self.options.bounds },
            None => self.options.bounds,
        };
        match apply_phenotype_delta(&mut after, &delta, &plan.keys, bounds, ops) {
            Ok(_) => Ok(after),
            Err(_) => Err(FitFailure::Keys),
        }
    }
}

/// `rows` are identities: `batch` rows of `n` of them.
pub open spec fn are_identities<T>(
    zero: T,
    one: T,
    batch: int,
    n: int,
    rows: Seq<Vec<[[T; 4]; 4]>>,
) -> bool {
    &&& has_shape(rows, batch, n)
    &&& forall|b: int, j: int|
        0 <= b < rows.len() && 0 <= j < n ==> crate::rotation::rows4(#[trigger] rows[b]@[j])
            =~~= crate::rotation::identity_rows(zero, one)
}

/// The rows have the same entries.
pub open spec fn same_rows<A>(a: Seq<Vec<A>>, b: Seq<Vec<A>>) -> bool {
    &&& a.len() == b.len()
    &&& forall|i: int| 0 <= i < a.len() ==> (#[trigger] a[i])@ == b[i]@
}

impl<'a, T: Copy, O: EndpointOps<T> + MotionOps<T> + BoneOps<T> + SolveOps<T>>
    FitOps for BodyFit<'a, T, O> {
    type Number = T;

    type Pose = Vec<Vec<[[T; 4]; 4]>>;

    type Root = Vec<Rigid<T>>;

    type Phenotype = PhenotypeValues<Vec<T>>;

    type Points = Vec<Vec<[T; 3]>>;

    type Body = ForwardOutput<T>;

    type Failure = FitFailure;

    fn rest_pose(&self) -> (r: Result<Vec<Vec<[[T; 4]; 4]>>, FitFailure>)
        ensures
            r is Ok,
            are_identities(
                self.with().zero,
                self.with().one,
                self.size(),
                self.body_model().figure.bone_labels@.len() as int,
                r->Ok_0@,
            ),
    {
        let n: usize = self.model.bone_count();
        let identity = identity_matrix(self.numbers.zero, self.numbers.one);
        let mut rows: Vec<Vec<[[T; 4]; 4]>> = Vec::new();
        for b in 0..self.batch
            invariant
                crate::rotation::rows4(identity) =~~= crate::rotation::identity_rows(
                    self.numbers.zero,
                    self.numbers.one,
                ),
                are_identities(
                    self.numbers.zero,
                    self.numbers.one,
                    b as int,
                    n as int,
                    rows@,
                ),
        {
            let mut row: Vec<[[T; 4]; 4]> = Vec::new();
            for j in 0..n
                invariant
                    crate::rotation::rows4(identity) =~~= crate::rotation::identity_rows(
                        self.numbers.zero,
                        self.numbers.one,
                    ),
                    row@.len() == j,
                    forall|k: int| 0 <= k < j ==> #[trigger] row@[k] == identity,
            {
                row.push(identity);
            }
            rows.push(row);
        }
        Ok(rows)
    }

    fn forward(
        &self,
        pose: &Vec<Vec<[[T; 4]; 4]>>,
        phenotype: &PhenotypeValues<Vec<T>>,
        mode: PoseParameterization,
    ) -> (r: Result<ForwardOutput<T>, FitFailure>)
        ensures
            match r {
                Ok(out) => crate::models::forward::forward_outcome(
                    self.with().ops,
                    self.with().third,
                    self.with().zero,
                    self.with().one,
                    self.body_model(),
                    Some(pose@),
                    *phenotype,
                    Seq::<(String, Vec<T>)>::empty(),
                    Some(mode),
                    Ok(out),
                ),
                Err(FitFailure::Forward(e)) => crate::models::forward::forward_outcome(
                    self.with().ops,
                    self.with().third,
                    self.with().zero,
                    self.with().one,
                    self.body_model(),
                    Some(pose@),
                    *phenotype,
                    Seq::<(String, Vec<T>)>::empty(),
                    Some(mode),
                    Err(e),
                ),
                Err(FitFailure::TooMany) => !crate::models::forward::countable(
                    *phenotype,
                    self.body_model().figure.bone_labels@.len() as int,
                ),
                Err(_) => false,
            },
    {
        proof {
            use_type_invariant(self);
        }
        if !can_count(phenotype, self.model.figure.bone_labels.len()) {
            return Err(FitFailure::TooMany);
        }
        match self.model.forward(Some(pose), phenotype, Some(mode), self.numbers) {
            Ok(out) => Ok(out),
            Err(e) => Err(FitFailure::Forward(e)),
        }
    }

    fn parameters(&self, body: &ForwardOutput<T>, mode: PoseParameterization) -> (r: Result<
        Vec<Vec<[[T; 4]; 4]>>,
        FitFailure,
    >)
        ensures
            match r {
                Ok(params) => {
                    &&& body.wf()
                    &&& params@.len() == body.skeletons@.len()
                    &&& forall|b: int|
                        0 <= b < params@.len() ==> crate::models::pose::are_parameters(
                            &(Matrices {
                                ops: self.with().ops,
                                zero: self.with().zero,
                                one: self.with().one,
                            }),
                            body.skeletons@[b],
                            mode,
                            (#[trigger] params@[b])@,
                        )
                },
                Err(FitFailure::Shape) => !body.wf(),
                Err(_) => false,
            },
    {
        if !is_sound(body) {
            return Err(FitFailure::Shape);
        }
        Ok(
            body.pose_parameterization(
                mode,
                self.numbers.zero,
                self.numbers.one,
                self.numbers.ops,
            ),
        )
    }

    fn vertices(&self, body: &ForwardOutput<T>) -> (r: Result<Vec<Vec<[T; 3]>>, FitFailure>)
        ensures
            r is Ok,
            same_rows(r->Ok_0@, body.vertices@),
    {
        Ok(copy_rows(&body.vertices))
    }

    fn bone_poses(&self, body: &ForwardOutput<T>) -> (r: Result<Vec<Vec<[[T; 4]; 4]>>, FitFailure>)
        ensures
            r is Ok,
            r->Ok_0@.len() == body.skeletons@.len(),
            forall|b: int|
                0 <= b < r->Ok_0@.len() ==> (#[trigger] r->Ok_0@[b])@ == body.skeletons@[b].poses@,
    {
        let mut rows: Vec<Vec<[[T; 4]; 4]>> = Vec::new();
        for b in 0..body.skeletons.len()
            invariant
                rows@.len() == b,
                forall|d: int|
                    0 <= d < b ==> (#[trigger] rows@[d])@ == body.skeletons@[d].poses@,
        {
            rows.push(copy_row(&body.skeletons[b].poses));
        }
        Ok(rows)
    }

    fn used(&self, points: &Vec<Vec<[T; 3]>>) -> (r: Result<Vec<Vec<[T; 3]>>, FitFailure>)
        ensures
            match r {
                Ok(picked) => {
                    &&& crate::parameters_regressor::steps::picks_within(
                        points@,
                        self.partition().partition.unique_ids@,
                    )
                    &&& crate::parameters_regressor::steps::are_picked(
                        points@,
                        self.partition().partition.unique_ids@,
                        picked@,
                    )
                },
                Err(FitFailure::Shape) => !crate::parameters_regressor::steps::picks_within(
                    points@,
                    self.partition().partition.unique_ids@,
                ),
                Err(_) => false,
            },
    {
        match pick_all(points, &self.regions.partition.unique_ids) {
            Some(picked) => Ok(picked),
            None => Err(FitFailure::Shape),
        }
    }

    fn align(&self, from: &Vec<Vec<[T; 3]>>, to: &Vec<Vec<[T; 3]>>) -> (r: Result<
        Vec<Rigid<T>>,
        FitFailure,
    >)
        ensures
            match r {
                Ok(roots) => {
                    &&& counterparts(from@, to@)
                    &&& roots@.len() == from@.len()
                    &&& forall|b: int|
                        0 <= b < roots@.len() ==> crate::registration::is_registration(
                            self.with().ops,
                            self.with().zero,
                            self.with().one,
                            from@[b]@,
                            to@[b]@,
                            crate::registration::weights_of(
                                None,
                                b,
                                from@[b]@.len(),
                                self.with().one,
                            ),
                            #[trigger] roots@[b],
                        )
                },
                Err(FitFailure::Shape) => !counterparts(from@, to@),
                Err(_) => false,
            },
    {
        if !has_counterparts(from, to) {
            return Err(FitFailure::Shape);
        }
        Ok(
            rigid_points_registration(
                from,
                to,
                None,
                self.numbers.zero,
                self.numbers.one,
                self.numbers.ops,
            ),
        )
    }

    fn with_root(&self, pose: &Vec<Vec<[[T; 4]; 4]>>, root: &Vec<Rigid<T>>) -> (r: Result<
        Vec<Vec<[[T; 4]; 4]>>,
        FitFailure,
    >)
        ensures
            match r {
                Ok(out) => {
                    &&& crate::parameters_regressor::steps::roots_fit(pose@, root@)
                    &&& out@.len() == pose@.len()
                    &&& forall|b: int|
                        0 <= b < out@.len() ==> crate::parameters_regressor::steps::is_rerooted(
                            pose@[b]@,
                            root@[b],
                            self.with().zero,
                            self.with().one,
                            (#[trigger] out@[b])@,
                        )
                },
                Err(FitFailure::Shape) => !crate::parameters_regressor::steps::roots_fit(
                    pose@,
                    root@,
                ),
                Err(_) => false,
            },
    {
        match replace_root(pose, root, self.numbers.zero, self.numbers.one) {
            Some(out) => Ok(out),
            None => Err(FitFailure::Shape),
        }
    }

    fn move_bones(
        &self,
        reference: &Vec<Vec<[T; 3]>>,
        target: &Vec<Vec<[T; 3]>>,
        bones: &Vec<Vec<[[T; 4]; 4]>>,
    ) -> (r: Result<Vec<Vec<[[T; 4]; 4]>>, FitFailure>)
        ensures
            match r {
                Ok(out) => {
                    &&& bones_movable(
                        reference@,
                        target@,
                        bones@,
                        self.size(),
                        self.partition().partition.unique_ids@.len() as int,
                        self.partition().partition.joint_vertex_sets@.len() as int,
                    )
                    &&& exists|turns: Seq<Vec<[[T; 4]; 4]>>| #[trigger]
                        are_turns(
                            self.with().ops,
                            self.with().zero,
                            self.with().one,
                            reference@,
                            target@,
                            self.partition(),
                            turns,
                        ) && crate::parameters_regressor::steps::are_products(
                            self.with().ops,
                            self.with().zero,
                            turns,
                            bones@,
                            out@,
                        )
                },
                Err(FitFailure::Shape) => !bones_movable(
                    reference@,
                    target@,
                    bones@,
                    self.size(),
                    self.partition().partition.unique_ids@.len() as int,
                    self.partition().partition.joint_vertex_sets@.len() as int,
                ),
                Err(_) => false,
            },
    {
        proof {
            use_type_invariant(self);
        }
        let p = &self.regions.partition;
        let n: usize = p.unique_ids.len();
        if !is_shaped(reference, self.batch, n) || !is_shaped(
            bones,
            self.batch,
            p.joint_vertex_sets.len(),
        ) {
            return Err(FitFailure::Shape);
        }
        let from = flatten(reference);
        let to = flatten(target);
        proof {
            crate::parameters_regressor::steps::lemma_flat_len(reference@, n as int);
        }
        if from.len() > to.len() {
            return Err(FitFailure::Shape);
        }
        let turns = register_bones(
            &from,
            &to,
            self.batch,
            n,
            &p.joint_vertex_sets,
            &p.vertex_joint_weights,
            self.numbers.zero,
            self.numbers.one,
            self.numbers.ops,
        );
        proof {
            assert(are_turns(
                self.with().ops,
                self.with().zero,
                self.with().one,
                reference@,
                target@,
                self.partition(),
                turns@,
            ));
        }
        Ok(multiply_all(&turns, bones, self.numbers.zero, self.numbers.ops))
    }

    fn cleaned(&self, pose: &Vec<Vec<[[T; 4]; 4]>>) -> (r: Result<
        Vec<Vec<[[T; 4]; 4]>>,
        FitFailure,
    >)
        ensures
            r is Ok,
            r->Ok_0@.len() == pose@.len(),
            forall|b: int|
                0 <= b < r->Ok_0@.len() ==> (#[trigger] r->Ok_0@[b])@.len() == pose@[b]@.len(),
            forall|b: int, j: int|
                0 <= b < r->Ok_0@.len() && 0 <= j < pose@[b]@.len()
                    ==> crate::parameters_regressor::fitting::is_sanitized(
                    self.with().ops,
                    self.with().zero,
                    self.with().one,
                    crate::rotation::rows4(pose@[b]@[j]),
                    crate::rotation::rows4(#[trigger] r->Ok_0@[b]@[j]),
                ),
    {
        Ok(sanitize_pose_parameters(
            pose,
            self.numbers.zero,
            self.numbers.one,
            self.numbers.ops,
        ))
    }

    fn in_place(&self, pose: &Vec<Vec<[[T; 4]; 4]>>) -> (r: Result<
        Vec<Vec<[[T; 4]; 4]>>,
        FitFailure,
    >)
        ensures
            match r {
                Ok(out) => {
                    let sets = self.partition().partition.joint_vertex_sets@;
                    &&& has_shape(pose@, pose@.len() as int, sets.len() as int)
                    &&& has_shape(out@, pose@.len() as int, sets.len() as int)
                    &&& forall|b: int, j: int|
                        0 <= b < out@.len() && 0 <= j < sets.len() ==> crate::rotation::rows4(
                            #[trigger] out@[b]@[j],
                        ) =~~= crate::parameters_regressor::fitting::reset_rows(
                            crate::rotation::rows4(pose@[b]@[j]),
                            j,
                            sets[j]@.len() > 0,
                            self.with().zero,
                            self.with().one,
                        )
                },
                Err(FitFailure::Shape) => !has_shape(
                    pose@,
                    pose@.len() as int,
                    self.partition().partition.joint_vertex_sets@.len() as int,
                ),
                Err(_) => false,
            },
    {
        let sets = &self.regions.partition.joint_vertex_sets;
        if !is_shaped(pose, pose.len(), sets.len()) {
            return Err(FitFailure::Shape);
        }
        Ok(
            zero_translation_for_supported_joints(
                pose,
                sets,
                self.numbers.zero,
                self.numbers.one,
            ),
        )
    }

    fn moved(&self, points: &Vec<Vec<[T; 3]>>, root: &Vec<Rigid<T>>) -> (r: Result<
        Vec<Vec<[T; 3]>>,
        FitFailure,
    >)
        ensures
            match r {
                Ok(out) => points@.len() == root@.len()
                    && crate::parameters_regressor::steps::are_moved_points(
                    self.with().ops,
                    root@,
                    points@,
                    out@,
                ),
                Err(FitFailure::Shape) => points@.len() != root@.len(),
                Err(_) => false,
            },
    {
        if points.len() != root.len() {
            return Err(FitFailure::Shape);
        }
        Ok(move_points(points, root, self.numbers.ops))
    }

    fn phenotype_step(
        &self,
        plan: &Plan<T>,
        pose: &Vec<Vec<[[T; 4]; 4]>>,
        phenotype: &PhenotypeValues<Vec<T>>,
        found: &Vec<Vec<[T; 3]>>,
        target: &Vec<Vec<[T; 3]>>,
    ) -> (r: Result<PhenotypeValues<Vec<T>>, FitFailure>)
        ensures
            self.step_outcome(*plan, pose@, *phenotype, found@, target@, r),
    {
        self.stepped(plan, pose, phenotype, found, target)
    }
}

} // verus!
