//! What the mappings of ages and the distributions of shapes come to in exact
//! arithmetic, and whose draws make up a phenotype.
use vstd::prelude::*;
use vstd::string::*;

use crate::phenotype::PhenotypeValues;
use crate::scalar::{Bounds, Division};
use crate::shape_distribution::{
    ConditionalBetaDistribution, Draw, MorphologicalAgeMapping, Prior, ShapeDistributionError,
};

verus! {

/// `r` is where the line through the anchors around `v` and their images leads: as far
/// on the way between the two images as `v` is between the two anchors. Beyond
/// the outermost anchors the lines go on, or stop at the outermost image.
pub open spec fn is_on_line<T>(
    extrapolate: bool,
    value: spec_fn(T) -> real,
    anchors: Seq<T>,
    images: Seq<T>,
    v: T,
    r: T,
) -> bool {
    exists|k: int|
        {
            let (lo, hi) = (value(anchors[k - 1]), value(anchors[k]));
            &&& 1 <= k < anchors.len()
            &&& k > 1 ==> lo < value(v)
            &&& k < anchors.len() - 1 ==> value(v) <= hi
            &&& (value(r) - value(images[k - 1])) * (hi - lo) == (
            crate::phenotype::row_laws::bounded(extrapolate, value(v), lo, hi) - lo) * (value(
                #[trigger] images[k],
            ) - value(images[k - 1]))
        }
}

proof fn lemma_on_line<T, O: Division<T> + Bounds<T>>(
    ops: &O,
    extrapolate: bool,
    zero: T,
    one: T,
    anchors: Seq<T>,
    images: Seq<T>,
    v: T,
    r: T,
    value: spec_fn(T) -> real,
)
    requires
        crate::utils::interpolation_laws::interpolates_exactly(ops, zero, one, value),
        anchors.len() >= 2,
        images.len() == anchors.len(),
        crate::utils::interpolation_laws::ascends(value, anchors),
        crate::utils::interpolation_laws::is_mapped(
            ops,
            extrapolate,
            zero,
            one,
            anchors,
            images,
            v,
            r,
        ),
    ensures
        is_on_line(extrapolate, value, anchors, images, v, r),
{
    let row = choose|row: Seq<T>| #[trigger]
        crate::utils::interpolation::is_weight_row(ops, extrapolate, zero, one, anchors, v, row)
            && crate::utils::blend::is_blend(
            ops,
            zero,
            crate::utils::interpolation_laws::image_terms(row, images),
            r,
        );
    let k = crate::phenotype::row_laws::lemma_weights(
        ops,
        extrapolate,
        zero,
        one,
        anchors,
        v,
        row,
        value,
    );
    let terms = crate::utils::interpolation_laws::image_terms(row, images);
    crate::utils::sums::lemma_blend(ops, zero, terms, r, value);
    let f = |i: int| value(terms[i].0) * value(terms[i].1);
    assert forall|i: int| 0 <= i < row.len() && i != k - 1 && i != k implies #[trigger] f(i)
        == 0 as real by {
        assert(value(row[i]) == 0 as real);
        let x = value(images[i]);
        assert((0 as real) * x == 0 as real) by (nonlinear_arith);
    }
    crate::phenotype::row_laws::lemma_two_terms(f, k, row.len());
    let (lo, hi) = (value(anchors[k - 1]), value(anchors[k]));
    let (a, b) = (value(images[k - 1]), value(images[k]));
    let s = value(row[k]);
    assert(lo < hi);
    crate::phenotype::row_laws::lemma_way(value(v), lo, hi);
    let w = (value(v) - lo) / (hi - lo);
    let t = crate::phenotype::row_laws::bounded(extrapolate, value(v), lo, hi) - lo;
    let d = hi - lo;
    assert(s == crate::phenotype::row_laws::bounded(extrapolate, w, 0 as real, 1 as real));
    assert((0 as real) * d == 0 as real && (1 as real) * d == d) by (nonlinear_arith);
    assert(s * d == t);
    assert((1 as real - s) * a + s * b == a + s * (b - a)) by (nonlinear_arith);
    let e = b - a;
    assert((s * e) * d == t * e) by (nonlinear_arith)
        requires
            s * d == t,
    ;
    assert(value(r) - a == s * e);
    assert(images[k] == images[k]);
}

/// In exact arithmetic ages are taken along the lines through the anchors: years by the
/// morphological anchors to those of the model.
pub proof fn law_years_to_ages<T: Copy, O: Division<T> + Bounds<T>>(
    ops: &O,
    m: MorphologicalAgeMapping<T>,
    years: Vec<T>,
    zero: T,
    one: T,
    ages: Vec<T>,
    value: spec_fn(T) -> real,
    b: int,
)
    requires
        crate::utils::interpolation_laws::interpolates_exactly(ops, zero, one, value),
        m.morphological_age_anchors@.len() >= 2,
        crate::utils::interpolation_laws::ascends(value, m.morphological_age_anchors@),
        call_ensures(
            MorphologicalAgeMapping::<T>::morphological_to_anny_age::<O>,
            (&m, &years, zero, one, ops),
            Ok::<Vec<T>, ShapeDistributionError>(ages),
        ),
        0 <= b < years@.len(),
    ensures
        ages@.len() == years@.len(),
        is_on_line(
            true,
            value,
            m.morphological_age_anchors@,
            m.anny_age_anchors@,
            years@[b],
            ages@[b],
        ),
{
    let (from, to) = (m.morphological_age_anchors@, m.anny_age_anchors@);
    assert(crate::shape_distribution::are_mapped(ops, true, zero, one, from, to, years@, ages@));
    lemma_on_line(ops, true, zero, one, from, to, years@[b], ages@[b], value);
}

/// In exact arithmetic ages are taken along the lines through the anchors: ages of the
/// model to years.
pub proof fn law_ages_to_years<T: Copy, O: Division<T> + Bounds<T>>(
    ops: &O,
    m: MorphologicalAgeMapping<T>,
    ages: Vec<T>,
    zero: T,
    one: T,
    years: Vec<T>,
    value: spec_fn(T) -> real,
    b: int,
)
    requires
        crate::utils::interpolation_laws::interpolates_exactly(ops, zero, one, value),
        m.anny_age_anchors@.len() >= 2,
        crate::utils::interpolation_laws::ascends(value, m.anny_age_anchors@),
        call_ensures(
            MorphologicalAgeMapping::<T>::anny_to_morphological_age::<O>,
            (&m, &ages, zero, one, ops),
            Ok::<Vec<T>, ShapeDistributionError>(years),
        ),
        0 <= b < ages@.len(),
    ensures
        years@.len() == ages@.len(),
        is_on_line(
            true,
            value,
            m.anny_age_anchors@,
            m.morphological_age_anchors@,
            ages@[b],
            years@[b],
        ),
{
    let (from, to) = (m.anny_age_anchors@, m.morphological_age_anchors@);
    assert(crate::shape_distribution::are_mapped(ops, true, zero, one, from, to, ages@, years@));
    lemma_on_line(ops, true, zero, one, from, to, ages@[b], years@[b], value);
}

/// In exact arithmetic the parameters of a distribution at an age are on the lines
/// through those of the anchors around it: the first by the alphas, the second by the
/// betas. Beyond the anchors they are those of the outermost.
pub proof fn law_parameters_at_age<T: Copy, O: Division<T> + Bounds<T>>(
    ops: &O,
    d: ConditionalBetaDistribution<T>,
    ages: Vec<T>,
    zero: T,
    one: T,
    p: (Vec<T>, Vec<T>),
    value: spec_fn(T) -> real,
    b: int,
)
    requires
        crate::utils::interpolation_laws::interpolates_exactly(ops, zero, one, value),
        d.age_anchors@.len() >= 2,
        crate::utils::interpolation_laws::ascends(value, d.age_anchors@),
        call_ensures(
            ConditionalBetaDistribution::<T>::distribution_params::<O>,
            (&d, &ages, zero, one, ops),
            Ok::<(Vec<T>, Vec<T>), ShapeDistributionError>(p),
        ),
        0 <= b < ages@.len(),
    ensures
        p.0@.len() == ages@.len(),
        p.1@.len() == ages@.len(),
        is_on_line(false, value, d.age_anchors@, d.alpha_anchors@, ages@[b], p.0@[b]),
        is_on_line(false, value, d.age_anchors@, d.beta_anchors@, ages@[b], p.1@[b]),
{
    let from = d.age_anchors@;
    assert(crate::shape_distribution::are_mapped(
        ops,
        false,
        zero,
        one,
        from,
        d.alpha_anchors@,
        ages@,
        p.0@,
    ));
    assert(crate::shape_distribution::are_mapped(
        ops,
        false,
        zero,
        one,
        from,
        d.beta_anchors@,
        ages@,
        p.1@,
    ));
    lemma_on_line(ops, false, zero, one, from, d.alpha_anchors@, ages@[b], p.0@[b], value);
    lemma_on_line(ops, false, zero, one, from, d.beta_anchors@, ages@[b], p.1@[b], value);
}

/// The list is the last one of that name.
pub open spec fn is_last_named<T>(
    lists: Seq<(String, Vec<T>)>,
    name: Seq<char>,
    list: Seq<T>,
) -> bool {
    exists|i: int|
        {
            &&& 0 <= i < lists.len()
            &&& (#[trigger] lists[i]).0@ == name
            &&& lists[i].1@ == list
            &&& forall|k: int| i < k < lists.len() ==> (#[trigger] lists[k]).0@ != name
        }
}

proof fn lemma_last_named<T>(lists: Seq<(String, Vec<T>)>, name: Seq<char>, list: Seq<T>)
    requires
        crate::shape_distribution::list_of(lists, name) == Some(list),
    ensures
        is_last_named(lists, name, list),
{
    let names = crate::shape_distribution::list_names(lists);
    crate::names::lemma_last_at(names, name);
    let i = crate::names::last_at(names, name)->0;
    assert(names[i] == lists[i].0@);
    assert forall|k: int| i < k < lists.len() implies (#[trigger] lists[k]).0@ != name by {
        assert(names[k] != name);
    }
}

/// The anchors of a mapping of ages are those under their names.
pub proof fn law_age_anchors_are_named<T: Copy>(
    lists: Vec<(String, Vec<T>)>,
    m: MorphologicalAgeMapping<T>,
)
    requires
        call_ensures(
            MorphologicalAgeMapping::<T>::from_state_dict,
            (&lists,),
            Ok::<MorphologicalAgeMapping<T>, ShapeDistributionError>(m),
        ),
    ensures
        is_last_named(lists@, "anny_age_anchors"@, m.anny_age_anchors@),
        is_last_named(lists@, "morphological_age_anchors"@, m.morphological_age_anchors@),
{
    lemma_last_named(lists@, "anny_age_anchors"@, m.anny_age_anchors@);
    lemma_last_named(lists@, "morphological_age_anchors"@, m.morphological_age_anchors@);
}

/// The anchors of a distribution are those under their names.
pub proof fn law_distribution_anchors_are_named<T: Copy>(
    lists: Vec<(String, Vec<T>)>,
    d: ConditionalBetaDistribution<T>,
)
    requires
        call_ensures(
            ConditionalBetaDistribution::<T>::from_state_dict,
            (&lists,),
            Ok::<ConditionalBetaDistribution<T>, ShapeDistributionError>(d),
        ),
    ensures
        is_last_named(lists@, "age_anchors"@, d.age_anchors@),
        is_last_named(lists@, "alpha_anchors"@, d.alpha_anchors@),
        is_last_named(lists@, "beta_anchors"@, d.beta_anchors@),
{
    lemma_last_named(lists@, "age_anchors"@, d.age_anchors@);
    lemma_last_named(lists@, "alpha_anchors"@, d.alpha_anchors@);
    lemma_last_named(lists@, "beta_anchors"@, d.beta_anchors@);
}

/// Each element is drawn by the parameters of its own gender: from the beta distribution
/// where both are positive, and uniformly elsewhere.
pub proof fn law_draws_by_gender<T: Copy, B: Fn(&T) -> bool, P: Fn(&T) -> bool>(
    boys: (Vec<T>, Vec<T>),
    girls: (Vec<T>, Vec<T>),
    genders: Vec<T>,
    is_boy: B,
    positive: P,
    r: Vec<Draw<T>>,
    boy: spec_fn(T) -> bool,
    above: spec_fn(T) -> bool,
    i: int,
)
    requires
        call_ensures(
            crate::shape_distribution::gendered_draws::<T, B, P>,
            (&boys, &girls, &genders, is_boy, positive),
            r,
        ),
        forall|g: T, a: bool| #[trigger] call_ensures(is_boy, (&g,), a) ==> a == boy(g),
        forall|x: T, a: bool| #[trigger] call_ensures(positive, (&x,), a) ==> a == above(x),
        0 <= i < genders@.len(),
    ensures
        r@.len() == genders@.len(),
        boy(genders@[i]) ==> r@[i] == if above(boys.0@[i]) && above(boys.1@[i]) {
            Draw::Beta { alpha: boys.0@[i], beta: boys.1@[i] }
        } else {
            Draw::Uniform
        },
        !boy(genders@[i]) ==> r@[i] == if above(girls.0@[i]) && above(girls.1@[i]) {
            Draw::Beta { alpha: girls.0@[i], beta: girls.1@[i] }
        } else {
            Draw::Uniform
        },
{
    assert(crate::shape_distribution::is_gendered_draw(
        is_boy,
        positive,
        boys,
        girls,
        genders@,
        i,
        r@[i],
    ));
}

/// The labels that are drawn uniformly are those without a distribution of their own.
pub proof fn law_uniform_labels(labels: Vec<&'static str>, r: Vec<&'static str>, label: Seq<char>)
    requires
        call_ensures(crate::shape_distribution::uniform_labels, (&labels,), r),
    ensures
        crate::names::str_views(r@).contains(label) <==> crate::names::str_views(labels@).contains(
            label,
        ) && label != "height"@ && label != "weight"@ && label != "muscle"@ && label
            != "proportions"@ && label != "age"@ && label != "gender"@,
{
    let six = crate::shape_distribution::drawn_labels();
    assert(six[0] == "height"@ && six[1] == "weight"@ && six[2] == "muscle"@);
    assert(six[3] == "proportions"@ && six[4] == "age"@ && six[5] == "gender"@);
    lemma_others(crate::names::str_views(labels@), six, labels@.len(), label);
    let all = crate::names::str_views(labels@);
    assert(all.take(labels@.len() as int) =~= all);
    if six.contains(label) {
        let k = choose|k: int| 0 <= k < six.len() && six[k] == label;
        assert(k == 0 || k == 1 || k == 2 || k == 3 || k == 4 || k == 5);
    }
}

proof fn lemma_others(all: Seq<Seq<char>>, out: Seq<Seq<char>>, n: nat, label: Seq<char>)
    requires
        n <= all.len(),
    ensures
        crate::names::others(all, out, n).contains(label) <==> all.take(n as int).contains(label)
            && !out.contains(label),
    decreases n,
{
    let now = crate::names::others(all, out, n);
    if n > 0 {
        let before = crate::names::others(all, out, (n - 1) as nat);
        lemma_others(all, out, (n - 1) as nat, label);
        assert(all.take(n as int) =~= all.take(n - 1).push(all[n - 1]));
        lemma_pushed(all.take(n - 1), all[n - 1], label);
        lemma_pushed(before, all[n - 1], label);
    } else {
        assert(!now.contains(label));
    }
}

proof fn lemma_pushed(s: Seq<Seq<char>>, x: Seq<char>, label: Seq<char>)
    ensures
        s.push(x).contains(label) <==> s.contains(label) || label == x,
{
    if s.contains(label) {
        let i = choose|i: int| 0 <= i < s.len() && s[i] == label;
        assert(s.push(x)[i] == label);
    }
    assert(s.push(x)[s.len() as int] == x);
}

/// A phenotype that is drawn has the values of the prior under the names of the prior.
/// Under another name it has the last draw for that label, and what it had at first
/// where there is none.
pub proof fn law_sampled_by_name<V>(
    start: PhenotypeValues<V>,
    labels: Vec<&'static str>,
    draws: Vec<V>,
    prior: Prior<V>,
    r: PhenotypeValues<V>,
    j: int,
)
    requires
        call_ensures(
            crate::shape_distribution::sampled_phenotype::<V>,
            (start, &labels, draws, prior),
            r,
        ),
        draws@.len() == labels@.len(),
    ensures
        r.gender == prior.gender,
        r.age == prior.age,
        r.height == prior.height,
        r.weight == prior.weight,
        r.muscle == prior.muscle,
        r.proportions == prior.proportions,
        is_last_draw(labels@, "cupsize"@, j) ==> r.cupsize == draws@[j],
        is_last_draw(labels@, "firmness"@, j) ==> r.firmness == draws@[j],
        is_last_draw(labels@, "african"@, j) ==> r.african == draws@[j],
        is_last_draw(labels@, "asian"@, j) ==> r.asian == draws@[j],
        is_last_draw(labels@, "caucasian"@, j) ==> r.caucasian == draws@[j],
        is_undrawn(labels@, "cupsize"@) ==> r.cupsize == start.cupsize,
        is_undrawn(labels@, "firmness"@) ==> r.firmness == start.firmness,
        is_undrawn(labels@, "african"@) ==> r.african == start.african,
        is_undrawn(labels@, "asian"@) ==> r.asian == start.asian,
        is_undrawn(labels@, "caucasian"@) ==> r.caucasian == start.caucasian,
{
    let names = crate::names::str_views(labels@);
    let p = crate::shape_distribution::filled(start, names, draws@, labels@.len());
    crate::parameters_regressor::slope_laws::law_values_are_named(p);
    crate::parameters_regressor::slope_laws::law_values_are_named(start);
    lemma_filled(start, labels@, draws@, labels@.len(), "cupsize"@, j);
    lemma_filled(start, labels@, draws@, labels@.len(), "firmness"@, j);
    lemma_filled(start, labels@, draws@, labels@.len(), "african"@, j);
    lemma_filled(start, labels@, draws@, labels@.len(), "asian"@, j);
    lemma_filled(start, labels@, draws@, labels@.len(), "caucasian"@, j);
    assert(labels@.take(labels@.len() as int) =~= labels@);
}

/// The label stands last at `j`.
pub open spec fn is_last_draw(labels: Seq<&'static str>, label: Seq<char>, j: int) -> bool {
    &&& 0 <= j < labels.len()
    &&& labels[j]@ == label
    &&& forall|k: int| j < k < labels.len() ==> (#[trigger] labels[k])@ != label
}

/// The label stands nowhere.
pub open spec fn is_undrawn(labels: Seq<&'static str>, label: Seq<char>) -> bool {
    forall|k: int| 0 <= k < labels.len() ==> (#[trigger] labels[k])@ != label
}

proof fn lemma_filled<V>(
    start: PhenotypeValues<V>,
    labels: Seq<&'static str>,
    draws: Seq<V>,
    n: nat,
    label: Seq<char>,
    j: int,
)
    requires
        n <= labels.len(),
        draws.len() == labels.len(),
        start.value(label) is Some,
    ensures
        crate::shape_distribution::filled(
            start,
            crate::names::str_views(labels),
            draws,
            n,
        ).value(label) is Some,
        is_last_draw(labels.take(n as int), label, j) ==> crate::shape_distribution::filled(
            start,
            crate::names::str_views(labels),
            draws,
            n,
        ).value(label) == Some(draws[j]),
        is_undrawn(labels.take(n as int), label) ==> crate::shape_distribution::filled(
            start,
            crate::names::str_views(labels),
            draws,
            n,
        ).value(label) == start.value(label),
    decreases n,
{
    let names = crate::names::str_views(labels);
    if n > 0 {
        let before = crate::shape_distribution::filled(start, names, draws, (n - 1) as nat);
        lemma_filled(start, labels, draws, (n - 1) as nat, label, j);
        crate::parameters_regressor::law_with_value(before, names[n - 1], draws[n - 1], label);
        let (now, less) = (labels.take(n as int), labels.take(n - 1));
        assert(now[n - 1]@ == names[n - 1]);
        if is_last_draw(now, label, j) && j < n - 1 {
            assert(now[n - 1]@ != label);
            assert forall|k: int| j < k < less.len() implies (#[trigger] less[k])@ != label by {
                assert(now[k]@ != label);
            }
            assert(less[j] == now[j]);
            assert(is_last_draw(less, label, j));
        }
        if is_undrawn(now, label) {
            assert(now[n - 1]@ != label);
            assert forall|k: int| 0 <= k < less.len() implies (#[trigger] less[k])@ != label by {
                assert(now[k]@ != label);
            }
        }
        if is_last_draw(now, label, j) && j == n - 1 {
            assert(names[n - 1] == label);
            assert(before.value(label) is Some);
        }
    }
}

} // verus!
