//! Distributions of phenotypes: the mapping between ages, the parameters of
//! the distributions by age and gender, and how drawn values become a
//! phenotype.
pub mod draw_laws;

use vstd::prelude::*;

use crate::names::{contains, same};
use crate::phenotype::PhenotypeValues;
use crate::utils::blend::blend;
use crate::scalar::{Bounds, Division};
use crate::utils::interpolation::linear_interpolation_coefficients;

verus! {

/// What stops the use of a distribution.
#[derive(Debug, Clone)]
pub enum ShapeDistributionError {
    /// A list is missing from the stored ones.
    Missing(String),
    /// Two lists that belong together have different lengths.
    AnchorCount { have: usize, want: usize },
}

/// The names of stored lists.
pub open spec fn list_names<T>(lists: Seq<(String, Vec<T>)>) -> Seq<Seq<char>> {
    Seq::new(lists.len(), |i: int| lists[i].0@)
}

/// The stored list with the name; where the name stands twice, the later one.
pub open spec fn list_of<T>(lists: Seq<(String, Vec<T>)>, name: Seq<char>) -> Option<Seq<T>> {
    match crate::names::last_at(list_names(lists), name) {
        Some(i) => Some(lists[i].1@),
        None => None,
    }
}

fn pull<T: Copy>(lists: &Vec<(String, Vec<T>)>, name: &str) -> (r: Result<
    Vec<T>,
    ShapeDistributionError,
>)
    ensures
        match r {
            Ok(l) => list_of(lists@, name@) == Some(l@),
            Err(ShapeDistributionError::Missing(n)) => n@ == name@ && list_of(lists@, name@) is None,
            Err(_) => false,
        },
{
    let ghost names = list_names(lists@);
    let mut i: usize = lists.len();
    while i > 0
        invariant
            i <= lists@.len(),
            names == list_names(lists@),
            forall|j: int| i <= j < names.len() ==> names[j] != name@,
        decreases i,
    {
        i = i - 1;
        if same(lists[i].0.as_str(), name) {
            proof {
                crate::names::lemma_last_at_is(names, name@, i as int);
            }
            let list = &lists[i].1;
            let mut r: Vec<T> = Vec::new();
            for k in 0..list.len()
                invariant
                    r@ =~= list@.take(k as int),
            {
                r.push(list[k]);
            }
            assert(list@.take(list@.len() as int) =~= list@);
            return Ok(r);
        }
    }
    proof {
        crate::names::lemma_last_at(names, name@);
    }
    Err(ShapeDistributionError::Missing(name.to_owned()))
}

/// `r` maps each value from the anchors to their images.
pub open spec fn are_mapped<T, O: Division<T> + Bounds<T>>(
    ops: &O,
    extrapolate: bool,
    zero: T,
    one: T,
    anchors: Seq<T>,
    images: Seq<T>,
    values: Seq<T>,
    r: Seq<T>,
) -> bool {
    &&& r.len() == values.len()
    &&& forall|b: int|
        0 <= b < values.len() ==> crate::utils::interpolation_laws::is_mapped(
            ops,
            extrapolate,
            zero,
            one,
            anchors,
            images,
            values[b],
            #[trigger] r[b],
        )
}

/// Maps each value from the anchors to their images.
fn mapped<T: Copy, O: Division<T> + Bounds<T>>(
    values: &Vec<T>,
    anchors: &Vec<T>,
    images: &Vec<T>,
    extrapolate: bool,
    zero: T,
    one: T,
    ops: &O,
) -> (r: Result<Vec<T>, ShapeDistributionError>)
    requires
        anchors@.len() >= 2,
    ensures
        match r {
            Ok(out) => {
                &&& images@.len() == anchors@.len()
                &&& are_mapped(
                    ops,
                    extrapolate,
                    zero,
                    one,
                    anchors@,
                    images@,
                    values@,
                    out@,
                )
            },
            Err(ShapeDistributionError::AnchorCount { have, want }) => {
                &&& have == images@.len()
                &&& want == anchors@.len()
                &&& have != want
            },
            Err(_) => false,
        },
{
    if images.len() != anchors.len() {
        return Err(
            ShapeDistributionError::AnchorCount { have: images.len(), want: anchors.len() },
        );
    }
    let rows = linear_interpolation_coefficients(values, anchors, extrapolate, zero, one, ops);
    let mut r: Vec<T> = Vec::new();
    for b in 0..values.len()
        invariant
            images@.len() == anchors@.len(),
            rows@.len() == values@.len(),
            forall|b: int|
                0 <= b < values@.len() ==> crate::utils::interpolation::is_weight_row(
                    ops,
                    extrapolate,
                    zero,
                    one,
                    anchors@,
                    values@[b],
                    (#[trigger] rows@[b])@,
                ),
            r@.len() == b,
            forall|d: int|
                0 <= d < b ==> crate::utils::interpolation_laws::is_mapped(
                    ops,
                    extrapolate,
                    zero,
                    one,
                    anchors@,
                    images@,
                    values@[d],
                    #[trigger] r@[d],
                ),
    {
        let row = &rows[b];
        assert(crate::utils::interpolation::is_weight_row(
            ops,
            extrapolate,
            zero,
            one,
            anchors@,
            values@[b as int],
            row@,
        ));
        let mut terms: Vec<(T, T)> = Vec::new();
        for k in 0..row.len()
            invariant
                row@.len() == images@.len(),
                terms@ =~= crate::utils::interpolation_laws::image_terms(
                    row@.take(k as int),
                    images@,
                ),
        {
            terms.push((row[k], images[k]));
        }
        assert(row@.take(row@.len() as int) =~= row@);
        let x = blend(ops, zero, &terms);
        assert(crate::utils::interpolation_laws::is_mapped(
            ops,
            extrapolate,
            zero,
            one,
            anchors@,
            images@,
            values@[b as int],
            x,
        ));
        r.push(x);
    }
    Ok(r)
}

/// Ages on the scale of the model, and the same ages in years.
#[derive(Debug, Clone)]
pub struct MorphologicalAgeMapping<T> {
    pub anny_age_anchors: Vec<T>,
    pub morphological_age_anchors: Vec<T>,
}

impl<T: Copy> MorphologicalAgeMapping<T> {
    /// The mapping among stored lists.
    pub fn from_state_dict(lists: &Vec<(String, Vec<T>)>) -> (r: Result<
        Self,
        ShapeDistributionError,
    >)
        ensures
            match r {
                Ok(m) => {
                    &&& list_of(lists@, "anny_age_anchors"@) == Some(m.anny_age_anchors@)
                    &&& list_of(lists@, "morphological_age_anchors"@) == Some(
                        m.morphological_age_anchors@,
                    )
                },
                Err(ShapeDistributionError::Missing(n)) => {
                    ||| n@ == "anny_age_anchors"@ && list_of(lists@, n@) is None
                    ||| n@ == "morphological_age_anchors"@ && list_of(lists@, n@) is None
                        && list_of(lists@, "anny_age_anchors"@) is Some
                },
                Err(_) => false,
            },
    {
        let anny_age_anchors = match pull(lists, "anny_age_anchors") {
            Ok(l) => l,
            Err(e) => {
                return Err(e);
            },
        };
        let morphological_age_anchors = match pull(lists, "morphological_age_anchors") {
            Ok(l) => l,
            Err(e) => {
                return Err(e);
            },
        };
        Ok(MorphologicalAgeMapping { anny_age_anchors, morphological_age_anchors })
    }

    /// Ages in years on the scale of the model.
    pub fn morphological_to_anny_age<
        O: Division<T> + Bounds<T>,
    >(&self, years: &Vec<T>, zero: T, one: T, ops: &O) -> (r: Result<
        Vec<T>,
        ShapeDistributionError,
    >)
        requires
            self.morphological_age_anchors@.len() >= 2,
        ensures
            match r {
                Ok(ages) => {
                    &&& self.anny_age_anchors@.len() == self.morphological_age_anchors@.len()
                    &&& are_mapped(
                        ops,
                        true,
                        zero,
                        one,
                        self.morphological_age_anchors@,
                        self.anny_age_anchors@,
                        years@,
                        ages@,
                    )
                },
                Err(ShapeDistributionError::AnchorCount { have, want }) => {
                    &&& have == self.anny_age_anchors@.len()
                    &&& want == self.morphological_age_anchors@.len()
                    &&& have != want
                },
                Err(_) => false,
            },
    {
        mapped(
            years,
            &self.morphological_age_anchors,
            &self.anny_age_anchors,
            true,
            zero,
            one,
            ops,
        )
    }

    /// Ages on the scale of the model in years.
    pub fn anny_to_morphological_age<
        O: Division<T> + Bounds<T>,
    >(&self, ages: &Vec<T>, zero: T, one: T, ops: &O) -> (r: Result<
        Vec<T>,
        ShapeDistributionError,
    >)
        requires
            self.anny_age_anchors@.len() >= 2,
        ensures
            match r {
                Ok(years) => {
                    &&& self.anny_age_anchors@.len() == self.morphological_age_anchors@.len()
                    &&& are_mapped(
                        ops,
                        true,
                        zero,
                        one,
                        self.anny_age_anchors@,
                        self.morphological_age_anchors@,
                        ages@,
                        years@,
                    )
                },
                Err(ShapeDistributionError::AnchorCount { have, want }) => {
                    &&& have == self.morphological_age_anchors@.len()
                    &&& want == self.anny_age_anchors@.len()
                    &&& have != want
                },
                Err(_) => false,
            },
    {
        mapped(
            ages,
            &self.anny_age_anchors,
            &self.morphological_age_anchors,
            true,
            zero,
            one,
            ops,
        )
    }
}

/// In exact arithmetic an age in years, mapped to the scale of the model and
/// back, is the same age.
pub proof fn law_age_round_trip<T, O: Division<T> + Bounds<T>>(
    m: MorphologicalAgeMapping<T>,
    ops: &O,
    zero: T,
    one: T,
    years: Seq<T>,
    ages: Seq<T>,
    back: Seq<T>,
    value: spec_fn(T) -> real,
    b: int,
)
    requires
        crate::utils::interpolation_laws::interpolates_exactly(
            ops,
            zero,
            one,
            value,
        ),
        m.morphological_age_anchors@.len() >= 2,
        m.anny_age_anchors@.len() == m.morphological_age_anchors@.len(),
        crate::utils::interpolation_laws::ascends(value, m.anny_age_anchors@),
        crate::utils::interpolation_laws::ascends(value, m.morphological_age_anchors@),
        are_mapped(
            ops,
            true,
            zero,
            one,
            m.morphological_age_anchors@,
            m.anny_age_anchors@,
            years,
            ages,
        ),
        are_mapped(
            ops,
            true,
            zero,
            one,
            m.anny_age_anchors@,
            m.morphological_age_anchors@,
            ages,
            back,
        ),
        0 <= b < years.len(),
    ensures
        value(back[b]) == value(years[b]),
{
    assert(crate::utils::interpolation_laws::is_mapped(
        ops,
        true,
        zero,
        one,
        m.anny_age_anchors@,
        m.morphological_age_anchors@,
        ages[b],
        back[b],
    ));
    crate::utils::interpolation_laws::law_mapped_back(
        ops,
        zero,
        one,
        m.morphological_age_anchors@,
        m.anny_age_anchors@,
        years[b],
        ages[b],
        back[b],
        value,
    );
}

/// The parameters of a distribution at given ages.
#[derive(Debug, Clone)]
pub struct ConditionalBetaDistribution<T> {
    pub age_anchors: Vec<T>,
    pub alpha_anchors: Vec<T>,
    pub beta_anchors: Vec<T>,
}

impl<T: Copy> ConditionalBetaDistribution<T> {
    /// The distribution among stored lists.
    pub fn from_state_dict(lists: &Vec<(String, Vec<T>)>) -> (r: Result<
        Self,
        ShapeDistributionError,
    >)
        ensures
            match r {
                Ok(d) => {
                    &&& list_of(lists@, "age_anchors"@) == Some(d.age_anchors@)
                    &&& list_of(lists@, "alpha_anchors"@) == Some(d.alpha_anchors@)
                    &&& list_of(lists@, "beta_anchors"@) == Some(d.beta_anchors@)
                },
                Err(ShapeDistributionError::Missing(n)) => {
                    &&& list_of(lists@, n@) is None
                    &&& {
                        ||| n@ == "age_anchors"@
                        ||| n@ == "alpha_anchors"@ && list_of(lists@, "age_anchors"@) is Some
                        ||| n@ == "beta_anchors"@ && list_of(lists@, "age_anchors"@) is Some
                            && list_of(lists@, "alpha_anchors"@) is Some
                    }
                },
                Err(_) => false,
            },
    {
        let age_anchors = match pull(lists, "age_anchors") {
            Ok(l) => l,
            Err(e) => {
                return Err(e);
            },
        };
        let alpha_anchors = match pull(lists, "alpha_anchors") {
            Ok(l) => l,
            Err(e) => {
                return Err(e);
            },
        };
        let beta_anchors = match pull(lists, "beta_anchors") {
            Ok(l) => l,
            Err(e) => {
                return Err(e);
            },
        };
        Ok(ConditionalBetaDistribution { age_anchors, alpha_anchors, beta_anchors })
    }

    /// The two parameters at each age.
    pub fn distribution_params<
        O: Division<T> + Bounds<T>,
    >(&self, ages: &Vec<T>, zero: T, one: T, ops: &O) -> (r: Result<
        (Vec<T>, Vec<T>),
        ShapeDistributionError,
    >)
        requires
            self.age_anchors@.len() >= 2,
        ensures
            match r {
                Ok(p) => {
                    &&& self.alpha_anchors@.len() == self.age_anchors@.len()
                    &&& self.beta_anchors@.len() == self.age_anchors@.len()
                    &&& are_mapped(
                        ops,
                        false,
                        zero,
                        one,
                        self.age_anchors@,
                        self.alpha_anchors@,
                        ages@,
                        p.0@,
                    )
                    &&& are_mapped(
                        ops,
                        false,
                        zero,
                        one,
                        self.age_anchors@,
                        self.beta_anchors@,
                        ages@,
                        p.1@,
                    )
                },
                Err(ShapeDistributionError::AnchorCount { have, want }) => {
                    &&& want == self.age_anchors@.len()
                    &&& have != want
                    &&& have == self.alpha_anchors@.len() || self.alpha_anchors@.len() == want
                        && have == self.beta_anchors@.len()
                },
                Err(_) => false,
            },
    {
        let alpha = match mapped(
            ages,
            &self.age_anchors,
            &self.alpha_anchors,
            false,
            zero,
            one,
            ops,
        ) {
            Ok(v) => v,
            Err(e) => {
                return Err(e);
            },
        };
        let beta = match mapped(
            ages,
            &self.age_anchors,
            &self.beta_anchors,
            false,
            zero,
            one,
            ops,
        ) {
            Ok(v) => v,
            Err(e) => {
                return Err(e);
            },
        };
        Ok((alpha, beta))
    }
}

/// The distributions of one gender.
#[derive(Debug, Clone)]
pub struct GenderBetaSet<T> {
    pub height: ConditionalBetaDistribution<T>,
    pub weight: ConditionalBetaDistribution<T>,
    pub muscle: ConditionalBetaDistribution<T>,
    pub proportions: ConditionalBetaDistribution<T>,
}

/// What a value is drawn from.
#[derive(Debug, Clone, Copy)]
pub enum Draw<T> {
    Beta { alpha: T, beta: T },
    /// From 0 to 1.
    Uniform,
}

/// `d` is the distribution of the parameters, or the uniform one where one of
/// them is not positive.
pub open spec fn is_draw<T, P: Fn(&T) -> bool>(positive: P, alpha: T, beta: T, d: Draw<T>) -> bool {
    match d {
        Draw::Beta { alpha: a, beta: b } => {
            &&& a == alpha
            &&& b == beta
            &&& call_ensures(positive, (&alpha,), true)
            &&& call_ensures(positive, (&beta,), true)
        },
        Draw::Uniform => call_ensures(positive, (&alpha,), false) || call_ensures(
            positive,
            (&beta,),
            false,
        ),
    }
}

/// `d` is what element `i` is drawn from: the parameters of the boys or those
/// of the girls, by its gender.
pub open spec fn is_gendered_draw<T, B: Fn(&T) -> bool, P: Fn(&T) -> bool>(
    is_boy: B,
    positive: P,
    boys: (Vec<T>, Vec<T>),
    girls: (Vec<T>, Vec<T>),
    genders: Seq<T>,
    i: int,
    d: Draw<T>,
) -> bool {
    ||| call_ensures(is_boy, (&genders[i],), true) && is_draw(
        positive,
        boys.0@[i],
        boys.1@[i],
        d,
    )
    ||| call_ensures(is_boy, (&genders[i],), false) && is_draw(
        positive,
        girls.0@[i],
        girls.1@[i],
        d,
    )
}

/// What each element is drawn from, given the parameters of boys and girls.
pub fn gendered_draws<T: Copy, B: Fn(&T) -> bool, P: Fn(&T) -> bool>(
    boys: &(Vec<T>, Vec<T>),
    girls: &(Vec<T>, Vec<T>),
    genders: &Vec<T>,
    is_boy: B,
    positive: P,
) -> (r: Vec<Draw<T>>)
    requires
        boys.0@.len() == genders@.len(),
        boys.1@.len() == genders@.len(),
        girls.0@.len() == genders@.len(),
        girls.1@.len() == genders@.len(),
        forall|g: &T| call_requires(is_boy, (g,)),
        forall|x: &T| call_requires(positive, (x,)),
    ensures
        r@.len() == genders@.len(),
        forall|i: int|
            0 <= i < r@.len() ==> is_gendered_draw(
                is_boy,
                positive,
                *boys,
                *girls,
                genders@,
                i,
                #[trigger] r@[i],
            ),
{
    let mut r: Vec<Draw<T>> = Vec::new();
    for i in 0..genders.len()
        invariant
            boys.0@.len() == genders@.len(),
            boys.1@.len() == genders@.len(),
            girls.0@.len() == genders@.len(),
            girls.1@.len() == genders@.len(),
            forall|g: &T| call_requires(is_boy, (g,)),
            forall|x: &T| call_requires(positive, (x,)),
            r@.len() == i,
            forall|j: int|
                0 <= j < i ==> is_gendered_draw(
                    is_boy,
                    positive,
                    *boys,
                    *girls,
                    genders@,
                    j,
                    #[trigger] r@[j],
                ),
    {
        let (alpha, beta) = if is_boy(&genders[i]) {
            (boys.0[i], boys.1[i])
        } else {
            (girls.0[i], girls.1[i])
        };
        let d = if positive(&alpha) && positive(&beta) {
            Draw::Beta { alpha, beta }
        } else {
            Draw::Uniform
        };
        r.push(d);
    }
    r
}

/// The labels whose values come from the distributions.
pub open spec fn drawn_labels() -> Seq<Seq<char>> {
    seq!["height"@, "weight"@, "muscle"@, "proportions"@, "age"@, "gender"@]
}

/// The labels that are not drawn from the distributions, in their order.
pub fn uniform_labels(labels: &Vec<&'static str>) -> (r: Vec<&'static str>)
    ensures
        crate::names::str_views(r@) =~= crate::names::others(
            crate::names::str_views(labels@),
            drawn_labels(),
            labels@.len(),
        ),
{
    let known: Vec<&str> = vec!["height", "weight", "muscle", "proportions", "age", "gender"];
    let ghost all = crate::names::str_views(labels@);
    assert(crate::names::str_views(known@) =~= drawn_labels());
    let mut r: Vec<&'static str> = Vec::new();
    for i in 0..labels.len()
        invariant
            all == crate::names::str_views(labels@),
            crate::names::str_views(known@) == drawn_labels(),
            crate::names::str_views(r@) =~= crate::names::others(all, drawn_labels(), i as nat),
    {
        assert(all[i as int] == labels@[i as int]@);
        if !contains(&known, labels[i]) {
            let ghost before = r@;
            r.push(labels[i]);
            assert(crate::names::str_views(r@) =~= crate::names::str_views(before).push(
                all[i as int],
            ));
        }
    }
    r
}

/// The values that come from the distributions.
pub struct Prior<V> {
    pub gender: V,
    pub age: V,
    pub height: V,
    pub weight: V,
    pub muscle: V,
    pub proportions: V,
}

/// The values after the first `n` labels were given theirs; unknown labels
/// are passed over.
pub open spec fn filled<V>(
    p: PhenotypeValues<V>,
    labels: Seq<Seq<char>>,
    draws: Seq<V>,
    n: nat,
) -> PhenotypeValues<V>
    decreases n,
{
    if n == 0 {
        p
    } else {
        let before = filled(p, labels, draws, (n - 1) as nat);
        match before.with(labels[n - 1], draws[n - 1]) {
            Some(after) => after,
            None => before,
        }
    }
}

/// A sampled phenotype: each of the other labels has its uniform draw, the six
/// drawn labels have the values of the distributions, and the rest stays as it
/// was.
pub fn sampled_phenotype<V>(
    start: PhenotypeValues<V>,
    labels: &Vec<&'static str>,
    draws: Vec<V>,
    prior: Prior<V>,
) -> (r: PhenotypeValues<V>)
    requires
        draws@.len() == labels@.len(),
    ensures
        r == (PhenotypeValues {
            gender: prior.gender,
            age: prior.age,
            height: prior.height,
            weight: prior.weight,
            muscle: prior.muscle,
            proportions: prior.proportions,
            ..filled(start, crate::names::str_views(labels@), draws@, labels@.len())
        }),
{
    let ghost names = crate::names::str_views(labels@);
    let ghost all = draws@;
    let mut p = start;
    let mut rest = draws;
    let n: usize = labels.len();
    for i in 0..n
        invariant
            n == labels@.len(),
            names == crate::names::str_views(labels@),
            all.len() == n,
            rest@.len() == n - i,
            rest@ == all.skip(i as int),
            p == filled(start, names, all, i as nat),
    {
        let ghost before = rest@;
        let v = rest.remove(0);
        let _known = p.set(labels[i], v);
        proof {
            assert(before[0] == all[i as int]);
            assert(rest@ =~= all.skip(i + 1));
            assert(names[i as int] == labels@[i as int]@);
        }
    }
    p.gender = prior.gender;
    p.age = prior.age;
    p.height = prior.height;
    p.weight = prior.weight;
    p.muscle = prior.muscle;
    p.proportions = prior.proportions;
    p
}

} // verus!
