//! Fits of a body model to vertices.
use vstd::prelude::*;

use crate::kinematics::bone_poses::EndpointOps;
use crate::models::body::Model;
use crate::models::forward::Numbers;
use crate::models::full_model::copy_row;
use crate::models::pose::PoseParameterization;
use crate::parameters_regressor::body_fit::{BodyFit, FitFailure, RegressorOptions, StepParts};
use crate::parameters_regressor::fitting::BoneOps;
use crate::parameters_regressor::schedule::{
    fit, fit_with_age_anchor_search, AnchorOps, BestAnchors, FitOps, FitResult, FitState, Judged, Plan, RoundSteps,
    SearchError,
};
use crate::parameters_regressor::{optim_keys, repeat_phenotype, BoneRegions, SolveOps};
use crate::phenotype::{BatchMismatch, PhenotypeValues};
use crate::scalar::Bounds;
use crate::skinning::MotionOps;
use crate::utils::mean::{per_element_distances, MeanOps};

verus! {

/// The values for the elements of a batch, from one for all or one for each.
pub open spec fn spread<T>(values: Seq<T>, batch: nat) -> Seq<T> {
    Seq::new(batch, |b: int| crate::phenotype::element(values, b))
}

/// The outcome of bringing a phenotype to the size of a batch.
pub open spec fn broadcast_outcome<T>(
    p: PhenotypeValues<Vec<T>>,
    batch: nat,
    r: Result<PhenotypeValues<Vec<T>>, BatchMismatch>,
) -> bool {
    match r {
        Ok(q) => forall|f: int|
            0 <= f < 11 ==> crate::parameters_regressor::serves(
                (#[trigger] crate::parameters_regressor::fields(p)[f]).len(),
                batch,
            ) && crate::parameters_regressor::fields(q)[f] == spread(
                crate::parameters_regressor::fields(p)[f],
                batch,
            ),
        Err(e) => crate::parameters_regressor::repeat_outcome(p, batch, 1, Err(e)),
    }
}

/// The phenotype with a value for each element of the batch.
pub fn broadcast_phenotype<T: Copy>(src: &PhenotypeValues<Vec<T>>, batch: usize) -> (r: Result<
    PhenotypeValues<Vec<T>>,
    BatchMismatch,
>)
    ensures
        broadcast_outcome(*src, batch as nat, r),
{
    let r = repeat_phenotype(src, batch, 1);
    proof {
        if r is Ok {
            let p = crate::parameters_regressor::fields(*src);
            let q = crate::parameters_regressor::fields(r->Ok_0);
            assert forall|f: int| 0 <= f < 11 implies crate::parameters_regressor::serves(
                (#[trigger] p[f]).len(),
                batch as nat,
            ) && q[f] == spread(p[f], batch as nat) by {
                assert(crate::parameters_regressor::repeated(p[f], batch as nat, 1) =~= spread(
                    p[f],
                    batch as nat,
                ));
            }
        }
    }
    r
}

/// `p` starts a fit: the ages and heights given, and `middle` for the others.
pub open spec fn is_initial<T>(
    ages: Seq<T>,
    heights: Seq<T>,
    middle: T,
    batch: nat,
    p: PhenotypeValues<Vec<T>>,
) -> bool {
    let other = spread(seq![middle], batch);
    &&& p.age@ == spread(ages, batch)
    &&& p.height@ == spread(heights, batch)
    &&& p.gender@ == other
    &&& p.muscle@ == other
    &&& p.weight@ == other
    &&& p.proportions@ == other
    &&& p.cupsize@ == other
    &&& p.firmness@ == other
    &&& p.african@ == other
    &&& p.asian@ == other
    &&& p.caucasian@ == other
}

fn initial<T: Copy>(ages: Vec<T>, heights: Vec<T>, middle: T, batch: usize) -> (r: Result<
    PhenotypeValues<Vec<T>>,
    BatchMismatch,
>)
    ensures
        match r {
            Ok(p) => {
                &&& crate::parameters_regressor::serves(ages@.len(), batch as nat)
                &&& crate::parameters_regressor::serves(heights@.len(), batch as nat)
                &&& is_initial(ages@, heights@, middle, batch as nat, p)
            },
            Err(e) => if crate::parameters_regressor::serves(ages@.len(), batch as nat) {
                &&& !crate::parameters_regressor::serves(heights@.len(), batch as nat)
                &&& e.len == heights@.len() && e.batch == batch
            } else {
                e.len == ages@.len() && e.batch == batch
            },
        },
{
    let mut p = PhenotypeValues::defaults(middle);
    let ghost a = ages@;
    let ghost h = heights@;
    p.age = ages;
    p.height = heights;
    let ghost fs = crate::parameters_regressor::fields(p);
    proof {
        assert(fs[0] == a && fs[4] == h);
        assert(fs[1] == seq![middle] && fs[2] == seq![middle] && fs[3] == seq![middle]);
        assert(fs[5] == seq![middle] && fs[6] == seq![middle] && fs[7] == seq![middle]);
        assert(fs[8] == seq![middle] && fs[9] == seq![middle] && fs[10] == seq![middle]);
    }
    let r = broadcast_phenotype(&p, batch);
    proof {
        match &r {
            Ok(q) => {
                let gs = crate::parameters_regressor::fields(*q);
                assert(gs[0] == spread(fs[0], batch as nat));
                assert(gs[1] == spread(fs[1], batch as nat));
                assert(gs[2] == spread(fs[2], batch as nat));
                assert(gs[3] == spread(fs[3], batch as nat));
                assert(gs[4] == spread(fs[4], batch as nat));
                assert(gs[5] == spread(fs[5], batch as nat));
                assert(gs[6] == spread(fs[6], batch as nat));
                assert(gs[7] == spread(fs[7], batch as nat));
                assert(gs[8] == spread(fs[8], batch as nat));
                assert(gs[9] == spread(fs[9], batch as nat));
                assert(gs[10] == spread(fs[10], batch as nat));
            },
            Err(e) => {
                let f = choose|f: int|
                    {
                        &&& 0 <= f < 11
                        &&& !crate::parameters_regressor::serves(
                            (#[trigger] fs[f]).len(),
                            batch as nat,
                        )
                        &&& e.len == fs[f].len()
                        &&& e.batch == batch
                        &&& forall|g: int|
                            0 <= g < f ==> crate::parameters_regressor::serves(
                                (#[trigger] fs[g]).len(),
                                batch as nat,
                            )
                    };
                assert(f == 0 || f == 4);
                if f == 4 {
                    assert(crate::parameters_regressor::serves(fs[0].len(), batch as nat));
                }
            },
        }
    }
    r
}

impl<'a, T: Copy, O: EndpointOps<T> + MotionOps<T> + BoneOps<T> + SolveOps<T>> Bounds<
    T,
> for BodyFit<'a, T, O> {
    fn less(&self, a: T, b: T) -> (r: bool)
        ensures
            crate::scalar::says_less(self.with().ops, a, b, r),
    {
        self.numbers().ops.less(a, b)
    }
}

/// How far each element of a fit is from its target, and how tall it came out.
pub open spec fn judged_outcome<T: Copy, O: MeanOps<T>>(
    ops: &O,
    zero: T,
    ids: Seq<u32>,
    found: Seq<Vec<[T; 3]>>,
    target: Seq<Vec<[T; 3]>>,
    heights: Seq<T>,
    r: Result<Judged<T>, FitFailure>,
) -> bool {
    let fits = crate::parameters_regressor::steps::picks_within(found, ids)
        && crate::parameters_regressor::steps::picks_within(target, ids) && found.len()
        == target.len();
    match r {
        Ok(j) => {
            &&& fits
            &&& j.heights@ == heights
            &&& j.errors@.len() == found.len()
            &&& forall|b: int|
                0 <= b < found.len() ==> crate::utils::mean::is_mean_distance(
                    ops,
                    zero,
                    crate::models::full_model::picked(found[b]@, ids),
                    crate::models::full_model::picked(target[b]@, ids),
                    #[trigger] j.errors@[b],
                )
        },
        Err(FitFailure::Shape) => !fits,
        Err(_) => false,
    }
}

impl<
    'a,
    T: Copy,
    O: EndpointOps<T> + MotionOps<T> + BoneOps<T> + SolveOps<T> + MeanOps<T>,
> AnchorOps<T> for BodyFit<'a, T, O> {
    fn at_age(&self, age: T) -> (r: Result<PhenotypeValues<Vec<T>>, FitFailure>)
        ensures
            r is Ok,
            is_initial(
                seq![age],
                seq![self.limits().middle],
                self.limits().middle,
                self.size() as nat,
                r->Ok_0,
            ),
    {
        let middle = self.options().middle;
        let ages = vec![age];
        let heights = vec![middle];
        assert(ages@ =~= seq![age]);
        assert(heights@ =~= seq![middle]);
        match initial(ages, heights, middle, self.batch()) {
            Ok(p) => Ok(p),
            Err(e) => Err(FitFailure::Phenotype(e)),
        }
    }

    fn at_ages(&self, ages: &Vec<T>, heights: &Vec<T>) -> (r: Result<
        PhenotypeValues<Vec<T>>,
        FitFailure,
    >)
        ensures
            match r {
                Ok(p) => {
                    &&& crate::parameters_regressor::serves(ages@.len(), self.size() as nat)
                    &&& crate::parameters_regressor::serves(heights@.len(), self.size() as nat)
                    &&& is_initial(
                        ages@,
                        heights@,
                        self.limits().middle,
                        self.size() as nat,
                        p,
                    )
                },
                Err(FitFailure::Phenotype(_)) => !crate::parameters_regressor::serves(
                    ages@.len(),
                    self.size() as nat,
                ) || !crate::parameters_regressor::serves(heights@.len(), self.size() as nat),
                Err(_) => false,
            },
    {
        match initial(copy_row(ages), copy_row(heights), self.options().middle, self.batch()) {
            Ok(p) => Ok(p),
            Err(e) => Err(FitFailure::Phenotype(e)),
        }
    }

    fn judged(
        &self,
        fit: &FitResult<
            Vec<Vec<[[T; 4]; 4]>>,
            PhenotypeValues<Vec<T>>,
            Vec<Vec<[T; 3]>>,
        >,
        target: &Vec<Vec<[T; 3]>>,
        batch: usize,
    ) -> (r: Result<Judged<T>, FitFailure>)
        ensures
            judged_outcome(
                self.with().ops,
                self.with().zero,
                self.partition().partition.unique_ids@,
                fit.vertices@,
                target@,
                fit.phenotype.height@,
                r,
            ),
    {
        let found = match self.used(&fit.vertices) {
            Ok(found) => found,
            Err(e) => {
                return Err(e);
            },
        };
        let wanted = match self.used(target) {
            Ok(wanted) => wanted,
            Err(e) => {
                return Err(e);
            },
        };
        if found.len() != wanted.len() {
            return Err(FitFailure::Shape);
        }
        let errors = per_element_distances(
            &found,
            &wanted,
            self.numbers().zero,
            self.numbers().ops,
        );
        Ok(Judged { errors, heights: copy_row(&fit.phenotype.height) })
    }
}

/// The values with the label.
pub open spec fn values_of<T>(p: PhenotypeValues<Vec<T>>, label: Seq<char>) -> Seq<T> {
    p.value(label)->0@
}

/// Phenotypes with the same fields have the same values.
pub proof fn lemma_same_values<T>(
    p: PhenotypeValues<Vec<T>>,
    q: PhenotypeValues<Vec<T>>,
    label: Seq<char>,
)
    requires
        crate::parameters_regressor::fields(p) == crate::parameters_regressor::fields(q),
        p.value(label) is Some,
    ensures
        q.value(label) is Some,
        values_of(q, label) == values_of(p, label),
{
    let fs = crate::parameters_regressor::fields(p);
    assert(fs[0] == p.age@ && fs[1] == p.gender@ && fs[2] == p.muscle@ && fs[3] == p.weight@);
    assert(fs[4] == p.height@ && fs[5] == p.proportions@ && fs[6] == p.cupsize@);
    assert(fs[7] == p.firmness@ && fs[8] == p.african@ && fs[9] == p.asian@);
    assert(fs[10] == p.caucasian@);
    let gs = crate::parameters_regressor::fields(q);
    assert(gs[0] == q.age@ && gs[1] == q.gender@ && gs[2] == q.muscle@ && gs[3] == q.weight@);
    assert(gs[4] == q.height@ && gs[5] == q.proportions@ && gs[6] == q.cupsize@);
    assert(gs[7] == q.firmness@ && gs[8] == q.african@ && gs[9] == q.asian@);
    assert(gs[10] == q.caucasian@);
}

/// A round changes no more than the values of the keys, and makes no list
/// longer or shorter.
pub proof fn law_round_changes_keys_only<
    'a,
    T: Copy,
    O: EndpointOps<T> + MotionOps<T> + BoneOps<T> + SolveOps<T>,
>(
    fit: &BodyFit<'a, T, O>,
    target: Vec<Vec<[T; 3]>>,
    plan: Plan<T>,
    before: FitState<BodyFit<'a, T, O>>,
    after: FitState<BodyFit<'a, T, O>>,
    label: Seq<char>,
)
    requires
        crate::parameters_regressor::schedule::is_round(fit, target, plan, before, after),
        before.phenotype.value(label) is Some,
    ensures
        after.phenotype.value(label) is Some,
        values_of(after.phenotype, label).len() == values_of(before.phenotype, label).len(),
        !crate::names::str_views(plan.keys@).contains(label) ==> values_of(after.phenotype, label)
            == values_of(before.phenotype, label),
{
    let keys = crate::names::str_views(plan.keys@);
    let s = choose|s: RoundSteps<BodyFit<'a, T, O>>| #[trigger]
        crate::parameters_regressor::schedule::are_round_steps(
            fit,
            target,
            plan,
            before,
            s,
            6,
        ) && after.phenotype == s.phenotype && after.body == s.body;
    assert(crate::parameters_regressor::schedule::round_step(
        fit,
        target,
        plan,
        before,
        s,
        4,
        None,
    ));
    if plan.keys@.len() > 0 {
        assert(fit.step_outcome(
            plan,
            s.pose@,
            before.phenotype,
            s.found@,
            target@,
            Ok(after.phenotype),
        ));
        let parts = choose|p: StepParts<T>|
            {
                &&& #[trigger] fit.are_parts(
                    plan.keys@,
                    s.pose@,
                    before.phenotype,
                    s.found@,
                    target@,
                    p,
                )
                &&& crate::parameters_regressor::are_stepped(
                    fit.with().ops,
                    crate::parameters_regressor::body_fit::bounds_of(fit.limits(), plan),
                    p.delta@,
                    keys,
                    p.start,
                    after.phenotype,
                    keys.len() as int,
                )
            };
        lemma_same_values(before.phenotype, parts.start, label);
        assert(keys.take(keys.len() as int) =~= keys);
        if keys.contains(label) {
            let i = choose|i: int| 0 <= i < keys.len() && keys[i] == label;
            assert(parts.start.value(keys[i]) is Some);
        } else {
            assert(after.phenotype.value(label) == parts.start.value(label));
        }
    }
}

/// Rounds change no more than the values of the keys, and make no list longer
/// or shorter.
pub proof fn law_rounds_change_keys_only<
    'a,
    T: Copy,
    O: EndpointOps<T> + MotionOps<T> + BoneOps<T> + SolveOps<T>,
>(
    fit: &BodyFit<'a, T, O>,
    target: Vec<Vec<[T; 3]>>,
    plan: Plan<T>,
    n: nat,
    before: FitState<BodyFit<'a, T, O>>,
    after: FitState<BodyFit<'a, T, O>>,
    label: Seq<char>,
)
    requires
        crate::parameters_regressor::schedule::are_rounds(fit, target, plan, n, before, after),
        before.phenotype.value(label) is Some,
    ensures
        after.phenotype.value(label) is Some,
        values_of(after.phenotype, label).len() == values_of(before.phenotype, label).len(),
        !crate::names::str_views(plan.keys@).contains(label) ==> values_of(after.phenotype, label)
            == values_of(before.phenotype, label),
    decreases n,
{
    if n > 0 {
        let middle = choose|middle: FitState<BodyFit<'a, T, O>>|
            crate::parameters_regressor::schedule::are_rounds(
                fit,
                target,
                plan,
                (n - 1) as nat,
                before,
                middle,
            ) && #[trigger] crate::parameters_regressor::schedule::is_round(
                fit,
                target,
                plan,
                middle,
                after,
            );
        law_rounds_change_keys_only(fit, target, plan, (n - 1) as nat, before, middle, label);
        law_round_changes_keys_only(fit, target, plan, middle, after, label);
    }
}

/// A fit holds every phenotype constant that is not among its keys, and gives
/// as many values as it was started with.
pub proof fn law_fit_changes_keys_only<
    'a,
    T: Copy,
    O: EndpointOps<T> + MotionOps<T> + BoneOps<T> + SolveOps<T>,
>(
    fit: &BodyFit<'a, T, O>,
    target: Vec<Vec<[T; 3]>>,
    start: PhenotypeValues<Vec<T>>,
    plan: Plan<T>,
    n: nat,
    mode: PoseParameterization,
    r: FitResult<Vec<Vec<[[T; 4]; 4]>>, PhenotypeValues<Vec<T>>, Vec<Vec<[T; 3]>>>,
    label: Seq<char>,
)
    requires
        crate::parameters_regressor::schedule::is_fit(fit, target, start, plan, n, mode, r),
        start.value(label) is Some,
    ensures
        r.phenotype.value(label) is Some,
        values_of(r.phenotype, label).len() == values_of(start, label).len(),
        !crate::names::str_views(plan.keys@).contains(label) ==> values_of(r.phenotype, label)
            == values_of(start, label),
{
    let (wanted, first, end) = choose|
        wanted: Vec<Vec<[T; 3]>>,
        first: FitState<BodyFit<'a, T, O>>,
        end: FitState<BodyFit<'a, T, O>>,
    |
        {
            &&& #[trigger] crate::parameters_regressor::schedule::reaches(
                fit,
                target,
                start,
                plan,
                n,
                wanted,
                first,
                end,
            )
            &&& r.phenotype == end.phenotype
        };
    law_rounds_change_keys_only(fit, wanted, plan, n, first, end, label);
}

proof fn lemma_age_and_height<T>(p: PhenotypeValues<Vec<T>>)
    ensures
        p.value("age"@) is Some,
        values_of(p, "age"@) == p.age@,
        p.value("height"@) is Some,
        values_of(p, "height"@) == p.height@,
{
    reveal_strlit("height");
    reveal_strlit("age");
    reveal_strlit("gender");
    reveal_strlit("muscle");
    reveal_strlit("weight");
    assert("height"@[0] == 'h' && "gender"@[0] == 'g' && "muscle"@[0] == 'm');
    assert("weight"@[0] == 'w' && "age"@.len() == 3 && "height"@.len() == 6);
}

proof fn lemma_trial_size<
    'a,
    T: Copy,
    O: EndpointOps<T> + MotionOps<T> + BoneOps<T> + SolveOps<T> + MeanOps<T>,
>(
    fit: &BodyFit<'a, T, O>,
    target: Vec<Vec<[T; 3]>>,
    plan: Plan<T>,
    n: nat,
    mode: PoseParameterization,
    batch: usize,
    age: T,
    errors: Vec<T>,
    heights: Vec<T>,
)
    requires
        crate::parameters_regressor::schedule::is_trial(
            fit,
            target,
            plan,
            n,
            mode,
            batch,
            age,
            errors,
            heights,
        ),
        fit.size() >= 0,
    ensures
        errors@.len() == target@.len(),
        heights@.len() == fit.size(),
{
    let (start, f) = choose|
        start: PhenotypeValues<Vec<T>>,
        f: FitResult<Vec<Vec<[[T; 4]; 4]>>, PhenotypeValues<Vec<T>>, Vec<Vec<[T; 3]>>>,
    |
        {
            &&& #[trigger] call_ensures(
                <BodyFit<'a, T, O> as AnchorOps<T>>::at_age,
                (fit, age),
                Ok::<PhenotypeValues<Vec<T>>, FitFailure>(start),
            )
            &&& #[trigger] crate::parameters_regressor::schedule::is_fit(
                fit,
                target,
                start,
                plan,
                n,
                mode,
                f,
            )
            &&& call_ensures(
                <BodyFit<'a, T, O> as AnchorOps<T>>::judged,
                (fit, &f, &target, batch),
                Ok::<Judged<T>, FitFailure>(Judged { errors, heights }),
            )
        };
    lemma_age_and_height(start);
    lemma_age_and_height(f.phenotype);
    law_fit_changes_keys_only(fit, target, start, plan, n, mode, f, "height"@);
}

/// Fits a model to vertices: its bones by rigid registration, its phenotypes
/// by damped least squares.
#[verifier::reject_recursive_types(T)]
pub struct Regressor<
    'a,
    T: Copy,
    O: EndpointOps<T> + MotionOps<T> + BoneOps<T> + SolveOps<T>,
> {
    model: &'a Model<T>,
    options: &'a RegressorOptions<T>,
    numbers: &'a Numbers<'a, O, T>,
    regions: BoneRegions<T>,
}

impl<'a, T: Copy, O: EndpointOps<T> + MotionOps<T> + BoneOps<T> + SolveOps<T>>
    Regressor<'a, T, O> {
    pub closed spec fn body_model(&self) -> Model<T> {
        *self.model
    }

    pub closed spec fn how(&self) -> RegressorOptions<T> {
        *self.options
    }

    pub closed spec fn with(&self) -> Numbers<'a, O, T> {
        *self.numbers
    }

    pub closed spec fn parts(&self) -> BoneRegions<T> {
        self.regions
    }

    #[verifier::type_invariant]
    closed spec fn inv(&self) -> bool {
        &&& self.model.wf()
        &&& self.regions.fits(self.model.figure.bone_labels@.len() as int)
    }

    /// The fit of a batch of targets.
    pub open spec fn fit_of(&self, batch: usize) -> BodyFit<'a, T, O> {
        crate::parameters_regressor::body_fit::fit_over(
            self.body_model(),
            self.parts(),
            self.with(),
            self.how(),
            batch,
        )
    }

    /// A regressor for a model: a weight counts if it is `significant`, and
    /// `place(i, n, of)` says where sample `i` of `n` stands among `of`
    /// vertices.
    pub fn new<F: Fn(&T) -> bool, S: Fn(usize, usize, usize) -> usize>(
        model: &'a Model<T>,
        options: &'a RegressorOptions<T>,
        numbers: &'a Numbers<'a, O, T>,
        significant: F,
        place: S,
    ) -> (r: Self)
        requires
            model.wf(),
            model.figure.template_vertices@.len() <= u32::MAX,
            forall|x: u32|
                crate::utils::index::occurs(
                    model.figure.faces@,
                    model.figure.faces@.len() as int,
                    x,
                ) ==> x < model.figure.template_vertices@.len(),
            forall|w: &T| call_requires(significant, (w,)),
            forall|i: usize, n: usize, of: usize| i < n <= of ==> call_requires(place, (i, n, of)),
        ensures
            r.body_model() == *model,
            r.how() == *options,
            r.with() == *numbers,
            crate::utils::index::is_ascending_set(
                r.parts().partition.unique_ids@,
                model.figure.faces@,
            ),
            crate::parameters_regressor::is_partition(
                significant,
                numbers.ops,
                numbers.zero,
                r.parts().partition.unique_ids@,
                model.figure.vertex_bones.indices@,
                model.figure.vertex_bones.weights@,
                model.figure.bone_labels@.len() as int,
                r.parts().partition,
            ),
            r.parts().sample_idx@.len() == crate::parameters_regressor::smaller(
                options.n_points as int,
                r.parts().partition.unique_ids@.len() as int,
            ),
            forall|i: int|
                0 <= i < r.parts().sample_idx@.len() ==> crate::parameters_regressor::is_sample(
                    place,
                    r.parts().partition.unique_ids@.len() as usize,
                    i as usize,
                    r.parts().sample_idx@.len() as usize,
                    #[trigger] r.parts().sample_idx@[i],
                ),
    {
        let regions = BoneRegions::new(
            &model.figure,
            options.n_points,
            significant,
            numbers.zero,
            numbers.ops,
            place,
        );
        Regressor { model, options, numbers, regions }
    }

    /// The phenotype that a fit starts from: the one given, brought to the
    /// size of the batch, or the age to start from and the middle for the
    /// others.
    pub open spec fn start_outcome(
        &self,
        initial: Option<PhenotypeValues<Vec<T>>>,
        batch: nat,
        r: Result<PhenotypeValues<Vec<T>>, BatchMismatch>,
    ) -> bool {
        match initial {
            Some(p) => broadcast_outcome(p, batch, r),
            None => r is Ok && is_initial(
                seq![self.how().start_age],
                seq![self.how().middle],
                self.how().middle,
                batch,
                r->Ok_0,
            ),
        }
    }

    /// The plan changes the labels of the model that are not excluded.
    pub open spec fn is_plan(&self, excluded: Seq<&str>, most: Option<T>, plan: Plan<T>) -> bool {
        let labels = crate::models::full_model::label_list(
            self.body_model().figure.all_phenotypes,
        );
        &&& crate::names::str_views(plan.keys@) =~= crate::names::others(
            labels,
            crate::names::str_views(excluded),
            labels.len(),
        )
        &&& plan.most == most
    }

    fn plan(&self, excluded: &Vec<&str>, most: Option<T>) -> (r: Plan<T>)
        ensures
            self.is_plan(excluded@, most, r),
    {
        let labels = self.model.phenotype_labels();
        let keys = optim_keys(&labels, excluded);
        assert(labels@.len() == crate::names::str_views(labels@).len());
        Plan { keys, most }
    }

    /// What a fit comes to.
    pub open spec fn fit_outcome(
        &self,
        target: Vec<Vec<[T; 3]>>,
        excluded: Seq<&str>,
        initial: Option<PhenotypeValues<Vec<T>>>,
        most: Option<T>,
        r: Result<
            FitResult<Vec<Vec<[[T; 4]; 4]>>, PhenotypeValues<Vec<T>>, Vec<Vec<[T; 3]>>>,
            FitFailure,
        >,
    ) -> bool {
        let batch = target@.len();
        match r {
            Ok(f) => exists|start: PhenotypeValues<Vec<T>>, plan: Plan<T>|
                {
                    &&& #[trigger] self.start_outcome(initial, batch, Ok(start))
                    &&& #[trigger] self.is_plan(excluded, most, plan)
                    &&& crate::parameters_regressor::schedule::is_fit(
                        &self.fit_of(batch as usize),
                        target,
                        start,
                        plan,
                        self.how().max_n_iters as nat,
                        self.body_model().figure.default_pose_parameterization,
                        f,
                    )
                },
            Err(e) => {
                ||| exists|m: BatchMismatch| #[trigger]
                    self.start_outcome(initial, batch, Err(m)) && e == FitFailure::Phenotype(m)
                ||| exists|start: PhenotypeValues<Vec<T>>, plan: Plan<T>|
                    {
                        &&& #[trigger] self.start_outcome(initial, batch, Ok(start))
                        &&& #[trigger] self.is_plan(excluded, most, plan)
                        &&& crate::parameters_regressor::schedule::fit_failed(
                            &self.fit_of(batch as usize),
                            target,
                            start,
                            plan,
                            self.how().max_n_iters as nat,
                            self.body_model().figure.default_pose_parameterization,
                            e,
                        )
                    }
            },
        }
    }

    /// Fits pose and phenotype to a batch of targets, from a given phenotype
    /// or from the middle. The excluded phenotypes are held constant; the
    /// others move in a round by `most` at the most, or by what the options say.
    pub fn fit_inner(
        &self,
        target: &Vec<Vec<[T; 3]>>,
        excluded: &Vec<&str>,
        initial_phenotype: Option<&PhenotypeValues<Vec<T>>>,
        most: Option<T>,
    ) -> (r: Result<
        FitResult<Vec<Vec<[[T; 4]; 4]>>, PhenotypeValues<Vec<T>>, Vec<Vec<[T; 3]>>>,
        FitFailure,
    >)
        ensures
            self.fit_outcome(
                *target,
                excluded@,
                match initial_phenotype {
                    Some(p) => Some(*p),
                    None => None,
                },
                most,
                r,
            ),
    {
        proof {
            use_type_invariant(self);
        }
        let batch: usize = target.len();
        let ghost given = match initial_phenotype {
            Some(p) => Some(*p),
            None => None,
        };
        let ages = vec![self.options.start_age];
        let heights = vec![self.options.middle];
        assert(ages@ =~= seq![self.options.start_age]);
        assert(heights@ =~= seq![self.options.middle]);
        let started = match initial_phenotype {
            Some(p) => broadcast_phenotype(p, batch),
            None => initial(ages, heights, self.options.middle, batch),
        };
        assert(self.start_outcome(given, batch as nat, started));
        let start = match started {
            Ok(start) => start,
            Err(e) => {
                return Err(FitFailure::Phenotype(e));
            },
        };
        let plan = self.plan(excluded, most);
        let body_fit = BodyFit::new(
            self.model,
            &self.regions,
            self.numbers,
            self.options,
            batch,
        );
        assert(body_fit == self.fit_of(batch));
        fit(
            &body_fit,
            target,
            start,
            &plan,
            self.options.max_n_iters,
            self.model.figure.default_pose_parameterization,
        )
    }

    /// Fits pose and phenotype to a batch of targets, from the middle.
    pub fn fit(&self, target: &Vec<Vec<[T; 3]>>, excluded: &Vec<&str>) -> (r: Result<
        FitResult<Vec<Vec<[[T; 4]; 4]>>, PhenotypeValues<Vec<T>>, Vec<Vec<[T; 3]>>>,
        FitFailure,
    >)
        ensures
            self.fit_outcome(*target, excluded@, None, None, r),
    {
        self.fit_inner(target, excluded, None, None)
    }
}

impl<
    'a,
    T: Copy,
    O: EndpointOps<T> + MotionOps<T> + BoneOps<T> + SolveOps<T> + MeanOps<T>,
> Regressor<'a, T, O> {
    /// The plans of a search: the trials hold the age constant, the last fit
    /// the height too, and moves the others gently.
    pub open spec fn are_search_plans(&self, trial: Plan<T>, last: Plan<T>) -> bool {
        &&& self.is_plan(seq!["age"], None, trial)
        &&& self.is_plan(seq!["age", "height"], Some(self.how().gentle), last)
    }

    /// What a search over ages comes to.
    pub open spec fn search_outcome(
        &self,
        target: Vec<Vec<[T; 3]>>,
        anchors: Seq<T>,
        far: T,
        r: Result<
            FitResult<Vec<Vec<[[T; 4]; 4]>>, PhenotypeValues<Vec<T>>, Vec<Vec<[T; 3]>>>,
            SearchError<FitFailure>,
        >,
    ) -> bool {
        let batch = target@.len() as usize;
        match r {
            Ok(f) => exists|trial: Plan<T>, last: Plan<T>|
                {
                    &&& #[trigger] self.are_search_plans(trial, last)
                    &&& crate::parameters_regressor::schedule::is_search(
                        &self.fit_of(batch),
                        target,
                        anchors,
                        trial,
                        last,
                        self.how().max_n_iters as nat,
                        self.body_model().figure.default_pose_parameterization,
                        batch,
                        far,
                        self.with().zero,
                        self.how().middle,
                        f,
                    )
                },
            Err(SearchError::Step(e)) => exists|trial: Plan<T>, last: Plan<T>|
                {
                    &&& #[trigger] self.are_search_plans(trial, last)
                    &&& crate::parameters_regressor::schedule::search_failed(
                        &self.fit_of(batch),
                        target,
                        anchors,
                        trial,
                        last,
                        self.how().max_n_iters as nat,
                        self.body_model().figure.default_pose_parameterization,
                        batch,
                        far,
                        self.with().zero,
                        self.how().middle,
                        e,
                    )
                },
            Err(SearchError::Batch) => false,
        }
    }

    /// Fits at each age of the anchors with the age held constant, then once
    /// more, gently and with age and height held constant, at the best age and
    /// height of each element. An error counts if it is less than `far`.
    pub fn fit_with_age_anchor_search(
        &self,
        target: &Vec<Vec<[T; 3]>>,
        anchors: &Vec<T>,
        far: T,
    ) -> (r: Result<
        FitResult<Vec<Vec<[[T; 4]; 4]>>, PhenotypeValues<Vec<T>>, Vec<Vec<[T; 3]>>>,
        SearchError<FitFailure>,
    >)
        ensures
            self.search_outcome(*target, anchors@, far, r),
    {
        proof {
            use_type_invariant(self);
        }
        let batch: usize = target.len();
        let held: Vec<&str> = vec!["age"];
        let pinned: Vec<&str> = vec!["age", "height"];
        let trial = self.plan(&held, None);
        let last = self.plan(&pinned, Some(self.options.gentle));
        let body_fit = BodyFit::new(
            self.model,
            &self.regions,
            self.numbers,
            self.options,
            batch,
        );
        proof {
            assert(body_fit == self.fit_of(batch));
            assert(held@ =~= seq!["age"]);
            assert(pinned@ =~= seq!["age", "height"]);
            assert(self.are_search_plans(trial, last));
        }
        let r = fit_with_age_anchor_search(
            &body_fit,
            target,
            anchors,
            &trial,
            &last,
            self.options.max_n_iters,
            self.model.figure.default_pose_parameterization,
            batch,
            far,
            self.numbers.zero,
            self.options.middle,
        );
        proof {
            if let Err(SearchError::Batch) = r {
                let (a, errors, heights) = choose|a: int, errors: Vec<T>, heights: Vec<T>|
                    0 <= a < anchors@.len()
                        && #[trigger] crate::parameters_regressor::schedule::is_trial(
                        &body_fit,
                        *target,
                        trial,
                        self.options.max_n_iters as nat,
                        self.model.figure.default_pose_parameterization,
                        batch,
                        anchors@[a],
                        errors,
                        heights,
                    ) && (errors@.len() < batch || heights@.len() < batch);
                lemma_trial_size(
                    &body_fit,
                    *target,
                    trial,
                    self.options.max_n_iters as nat,
                    self.model.figure.default_pose_parameterization,
                    batch,
                    anchors@[a],
                    errors,
                    heights,
                );
            }
        }
        r
    }
}

/// A fit holds the excluded phenotypes constant: their values are those that
/// it started from.
pub proof fn law_excluded_phenotypes_held<
    'a,
    T: Copy,
    O: EndpointOps<T> + MotionOps<T> + BoneOps<T> + SolveOps<T>,
>(
    regressor: &Regressor<'a, T, O>,
    target: Vec<Vec<[T; 3]>>,
    excluded: Seq<&str>,
    initial: Option<PhenotypeValues<Vec<T>>>,
    most: Option<T>,
    r: FitResult<Vec<Vec<[[T; 4]; 4]>>, PhenotypeValues<Vec<T>>, Vec<Vec<[T; 3]>>>,
    label: Seq<char>,
)
    requires
        regressor.fit_outcome(target, excluded, initial, most, Ok(r)),
        crate::names::str_views(excluded).contains(label),
        r.phenotype.value(label) is Some,
    ensures
        exists|start: PhenotypeValues<Vec<T>>| #[trigger]
            regressor.start_outcome(initial, target@.len(), Ok(start)) && values_of(
                r.phenotype,
                label,
            ) == values_of(start, label),
{
    let batch = target@.len();
    let (start, plan) = choose|start: PhenotypeValues<Vec<T>>, plan: Plan<T>|
        {
            &&& #[trigger] regressor.start_outcome(initial, batch, Ok(start))
            &&& #[trigger] regressor.is_plan(excluded, most, plan)
            &&& crate::parameters_regressor::schedule::is_fit(
                &regressor.fit_of(batch as usize),
                target,
                start,
                plan,
                regressor.how().max_n_iters as nat,
                regressor.body_model().figure.default_pose_parameterization,
                r,
            )
        };
    let labels = crate::models::full_model::label_list(
        regressor.body_model().figure.all_phenotypes,
    );
    crate::names::law_others_not_kept(
        labels,
        crate::names::str_views(excluded),
        labels.len(),
        label,
    );
    law_fit_changes_keys_only(
        &regressor.fit_of(batch as usize),
        target,
        start,
        plan,
        regressor.how().max_n_iters as nat,
        regressor.body_model().figure.default_pose_parameterization,
        r,
        label,
    );
}

/// A search over ages ends at the best of them: the age of each element is the
/// anchor whose trial came nearest to its target, and its height the one that
/// the trial settled on.
pub proof fn law_search_pins_age_and_height<
    'a,
    T: Copy,
    O: EndpointOps<T> + MotionOps<T> + BoneOps<T> + SolveOps<T> + MeanOps<T>,
>(
    regressor: &Regressor<'a, T, O>,
    target: Vec<Vec<[T; 3]>>,
    anchors: Seq<T>,
    far: T,
    r: FitResult<Vec<Vec<[[T; 4]; 4]>>, PhenotypeValues<Vec<T>>, Vec<Vec<[T; 3]>>>,
)
    requires
        regressor.search_outcome(target, anchors, far, Ok(r)),
        target@.len() <= usize::MAX,
    ensures
        exists|trial: Plan<T>, last: Plan<T>, best: BestAnchors<T>|
            {
                &&& #[trigger] regressor.are_search_plans(trial, last)
                &&& #[trigger] crate::parameters_regressor::schedule::are_best(
                    &regressor.fit_of(target@.len() as usize),
                    target,
                    anchors,
                    trial,
                    regressor.how().max_n_iters as nat,
                    regressor.body_model().figure.default_pose_parameterization,
                    target@.len() as usize,
                    far,
                    regressor.with().zero,
                    regressor.how().middle,
                    best,
                )
                &&& r.phenotype.age@ == best.ages@
                &&& r.phenotype.height@ == best.heights@
            },
{
    let batch = target@.len() as usize;
    let fit = regressor.fit_of(batch);
    let rounds = regressor.how().max_n_iters as nat;
    let mode = regressor.body_model().figure.default_pose_parameterization;
    let (trial, last) = choose|trial: Plan<T>, last: Plan<T>|
        {
            &&& #[trigger] regressor.are_search_plans(trial, last)
            &&& crate::parameters_regressor::schedule::is_search(
                &fit,
                target,
                anchors,
                trial,
                last,
                rounds,
                mode,
                batch,
                far,
                regressor.with().zero,
                regressor.how().middle,
                r,
            )
        };
    let best = choose|best: BestAnchors<T>|
        {
            &&& #[trigger] crate::parameters_regressor::schedule::are_best(
                &fit,
                target,
                anchors,
                trial,
                rounds,
                mode,
                batch,
                far,
                regressor.with().zero,
                regressor.how().middle,
                best,
            )
            &&& crate::parameters_regressor::schedule::is_last(
                &fit,
                target,
                last,
                rounds,
                mode,
                best,
                r,
            )
        };
    let start = choose|start: PhenotypeValues<Vec<T>>| #[trigger]
        call_ensures(
            <BodyFit<'a, T, O> as AnchorOps<T>>::at_ages,
            (&fit, &best.ages, &best.heights),
            Ok::<PhenotypeValues<Vec<T>>, FitFailure>(start),
        ) && crate::parameters_regressor::schedule::is_fit(
            &fit,
            target,
            start,
            last,
            rounds,
            mode,
            r,
        );
    crate::parameters_regressor::body_fit::lemma_fit_over(
        regressor.body_model(),
        regressor.parts(),
        regressor.with(),
        regressor.how(),
        batch,
    );
    assert(start.age@ =~= best.ages@);
    assert(start.height@ =~= best.heights@);
    let pinned = seq!["age", "height"];
    let names = crate::names::str_views(pinned);
    assert(names[0] == "age"@ && names[1] == "height"@);
    let labels = crate::models::full_model::label_list(
        regressor.body_model().figure.all_phenotypes,
    );
    crate::names::law_others_not_kept(labels, names, labels.len(), "age"@);
    crate::names::law_others_not_kept(labels, names, labels.len(), "height"@);
    lemma_age_and_height(start);
    lemma_age_and_height(r.phenotype);
    law_fit_changes_keys_only(&fit, target, start, last, rounds, mode, r, "age"@);
    law_fit_changes_keys_only(&fit, target, start, last, rounds, mode, r, "height"@);
}

} // verus!
