//! What the bodies of a step of the phenotype are, what their slopes come to in
//! exact arithmetic, and where a step leads.
use vstd::prelude::*;
use vstd::string::*;

use crate::parameters_regressor::{StepBounds, UnknownLabel};
use crate::phenotype::{BatchMismatch, PhenotypeValues};
use crate::scalar::{Arithmetic, Bounds};

verus! {

/// Each value of a phenotype stands under the name of its field, and no value stands
/// under another name.
pub proof fn law_values_are_named<T>(p: PhenotypeValues<T>)
    ensures
        p.value("age"@) == Some(p.age),
        p.value("gender"@) == Some(p.gender),
        p.value("muscle"@) == Some(p.muscle),
        p.value("weight"@) == Some(p.weight),
        p.value("height"@) == Some(p.height),
        p.value("proportions"@) == Some(p.proportions),
        p.value("cupsize"@) == Some(p.cupsize),
        p.value("firmness"@) == Some(p.firmness),
        p.value("african"@) == Some(p.african),
        p.value("asian"@) == Some(p.asian),
        p.value("caucasian"@) == Some(p.caucasian),
{
    reveal_strlit("age");
    reveal_strlit("gender");
    reveal_strlit("muscle");
    reveal_strlit("weight");
    reveal_strlit("height");
    reveal_strlit("proportions");
    reveal_strlit("cupsize");
    reveal_strlit("firmness");
    reveal_strlit("african");
    reveal_strlit("asian");
    reveal_strlit("caucasian");
    assert("age"@.len() == 3);
    assert("gender"@.len() == 6 && "gender"@[0] == 'g');
    assert("muscle"@.len() == 6 && "muscle"@[0] == 'm');
    assert("weight"@.len() == 6 && "weight"@[0] == 'w');
    assert("height"@.len() == 6 && "height"@[0] == 'h');
    assert("proportions"@.len() == 11);
    assert("cupsize"@.len() == 7 && "cupsize"@[0] == 'c');
    assert("firmness"@.len() == 8);
    assert("african"@.len() == 7 && "african"@[0] == 'a');
    assert("asian"@.len() == 5);
    assert("caucasian"@.len() == 9);
}

pub proof fn lemma_repeats_by_name<T>(
    before: PhenotypeValues<Vec<T>>,
    batch: nat,
    repeats: nat,
    after: PhenotypeValues<Vec<T>>,
    b: int,
    p: int,
)
    requires
        crate::parameters_regressor::repeat_outcome(
            before,
            batch,
            repeats,
            Ok::<PhenotypeValues<Vec<T>>, BatchMismatch>(after),
        ),
        0 <= b < batch,
        0 <= p < repeats,
    ensures
        repeats_at(before.age@, after.age@, batch as int, repeats as int, b, p),
        repeats_at(before.gender@, after.gender@, batch as int, repeats as int, b, p),
        repeats_at(before.muscle@, after.muscle@, batch as int, repeats as int, b, p),
        repeats_at(before.weight@, after.weight@, batch as int, repeats as int, b, p),
        repeats_at(before.height@, after.height@, batch as int, repeats as int, b, p),
        repeats_at(before.proportions@, after.proportions@, batch as int, repeats as int, b, p),
        repeats_at(before.cupsize@, after.cupsize@, batch as int, repeats as int, b, p),
        repeats_at(before.firmness@, after.firmness@, batch as int, repeats as int, b, p),
        repeats_at(before.african@, after.african@, batch as int, repeats as int, b, p),
        repeats_at(before.asian@, after.asian@, batch as int, repeats as int, b, p),
        repeats_at(before.caucasian@, after.caucasian@, batch as int, repeats as int, b, p),
{
    let (x, y) = (
        crate::parameters_regressor::fields(before),
        crate::parameters_regressor::fields(after),
    );
    let (n, r) = (batch as int, repeats as int);
    assert(crate::parameters_regressor::repeat_outcome(
        before,
        batch,
        repeats,
        Ok::<PhenotypeValues<Vec<T>>, BatchMismatch>(after),
    ));
    vstd::arithmetic::div_mod::lemma_fundamental_div_mod_converse(b * r + p, r, b, p);
    assert(0 <= b * r + p < n * r) by (nonlinear_arith)
        requires
            0 <= b < n,
            0 <= p < r,
    ;
    assert forall|f: int| 0 <= f < 11 implies repeats_at(#[trigger] x[f], y[f], n, r, b, p) by {
        assert(y[f] == crate::parameters_regressor::repeated(x[f], batch, repeats));
    }
    assert(x[0] == before.age@ && x[1] == before.gender@ && x[2] == before.muscle@);
    assert(x[3] == before.weight@ && x[4] == before.height@ && x[5] == before.proportions@);
    assert(x[6] == before.cupsize@ && x[7] == before.firmness@ && x[8] == before.african@);
    assert(x[9] == before.asian@ && x[10] == before.caucasian@);
    assert(y[0] == after.age@ && y[1] == after.gender@ && y[2] == after.muscle@);
    assert(y[3] == after.weight@ && y[4] == after.height@ && y[5] == after.proportions@);
    assert(y[6] == after.cupsize@ && y[7] == after.firmness@ && y[8] == after.african@);
    assert(y[9] == after.asian@ && y[10] == after.caucasian@);
}

/// Phenotypes that are repeated hold in each run of repeats the values of one element:
/// under every name, place `p` of run `b` has what was given for element `b`.
pub proof fn law_repeats_by_name<T: Copy>(
    before: PhenotypeValues<Vec<T>>,
    batch: usize,
    repeats: usize,
    after: PhenotypeValues<Vec<T>>,
    b: int,
    p: int,
)
    requires
        call_ensures(
            crate::parameters_regressor::repeat_phenotype::<T>,
            (&before, batch, repeats),
            Ok::<PhenotypeValues<Vec<T>>, BatchMismatch>(after),
        ),
        0 <= b < batch,
        0 <= p < repeats,
    ensures
        repeats_at(before.age@, after.age@, batch as int, repeats as int, b, p),
        repeats_at(before.gender@, after.gender@, batch as int, repeats as int, b, p),
        repeats_at(before.muscle@, after.muscle@, batch as int, repeats as int, b, p),
        repeats_at(before.weight@, after.weight@, batch as int, repeats as int, b, p),
        repeats_at(before.height@, after.height@, batch as int, repeats as int, b, p),
        repeats_at(before.proportions@, after.proportions@, batch as int, repeats as int, b, p),
        repeats_at(before.cupsize@, after.cupsize@, batch as int, repeats as int, b, p),
        repeats_at(before.firmness@, after.firmness@, batch as int, repeats as int, b, p),
        repeats_at(before.african@, after.african@, batch as int, repeats as int, b, p),
        repeats_at(before.asian@, after.asian@, batch as int, repeats as int, b, p),
        repeats_at(before.caucasian@, after.caucasian@, batch as int, repeats as int, b, p),
{
    lemma_repeats_by_name(before, batch as nat, repeats as nat, after, b, p);
}

/// Place `p` of run `b` has what was given for element `b`.
pub open spec fn repeats_at<T>(
    before: Seq<T>,
    after: Seq<T>,
    batch: int,
    repeats: int,
    b: int,
    p: int,
) -> bool {
    &&& before.len() == 1 || before.len() == batch
    &&& after.len() == batch * repeats
    &&& after[b * repeats + p] == if before.len() == 1 {
        before[0]
    } else {
        before[b]
    }
}

pub proof fn lemma_places<T, O: Arithmetic<T>>(
    ops: &O,
    before: PhenotypeValues<Vec<T>>,
    names: Seq<Seq<char>>,
    eps: T,
    after: PhenotypeValues<Vec<T>>,
    value: spec_fn(T) -> real,
    b: int,
    p: int,
    label: Seq<char>,
)
    requires
        crate::scalar::is_exact(ops, value),
        crate::parameters_regressor::is_perturbed(ops, eps, names, before, after),
        0 <= b,
        0 <= p <= names.len(),
        before.value(label) is Some,
        b * (names.len() + 1) + p < before.value(label)->0@.len(),
    ensures
        after.value(label) is Some,
        after.value(label)->0@.len() == before.value(label)->0@.len(),
        ({
            let k = b * (names.len() + 1) + p;
            let x = value(before.value(label)->0@[k]);
            value(after.value(label)->0@[k]) == if p > 0 && names[p - 1] == label {
                x + value(eps)
            } else {
                x
            }
        }),
{
    let r = (names.len() + 1) as int;
    let k = b * r + p;
    vstd::arithmetic::div_mod::lemma_fundamental_div_mod_converse(k, r, b, p);
    assert(0 <= b * r) by (nonlinear_arith)
        requires
            0 <= b,
            0 < r,
    ;
    if names.contains(label) {
        let i = choose|i: int| 0 <= i < names.len() && names[i] == label;
        assert(crate::parameters_regressor::is_bumped(
            ops,
            eps,
            i,
            r,
            before.value(names[i])->0@,
            after.value(names[i])->0@,
        ));
        let (x, y) = (before.value(label)->0@, after.value(label)->0@);
        if p == i + 1 {
            assert(crate::scalar::sum_of(ops, x[k], eps, y[k]));
        } else {
            assert(y[k] == x[k]);
            if p > 0 && names[p - 1] == label {
                lemma_twice(ops, eps, names, before, after, i, p - 1, k);
            }
        }
    }
}

/// In exact arithmetic place `p` of a run of perturbed phenotypes differs from what was
/// there in one value at most: place 0 in none, and place `p` in that of the
/// label before it, which is greater by the step.
pub proof fn law_places_of_labels<T: Copy, O: Arithmetic<T>>(
    ops: &O,
    before: PhenotypeValues<Vec<T>>,
    labels: Vec<&'static str>,
    total: usize,
    eps: T,
    after: PhenotypeValues<Vec<T>>,
    value: spec_fn(T) -> real,
    b: int,
    p: int,
    label: Seq<char>,
)
    requires
        crate::scalar::is_exact(ops, value),
        call_ensures(
            crate::parameters_regressor::perturb_phenotype::<T, O>,
            (before, &labels, total, eps, ops),
            Ok::<PhenotypeValues<Vec<T>>, UnknownLabel>(after),
        ),
        0 <= b,
        0 <= p <= labels@.len(),
        before.value(label) is Some,
        b * (labels@.len() + 1) + p < before.value(label)->0@.len(),
    ensures
        after.value(label) is Some,
        after.value(label)->0@.len() == before.value(label)->0@.len(),
        ({
            let k = b * (labels@.len() + 1) + p;
            let x = value(before.value(label)->0@[k]);
            value(after.value(label)->0@[k]) == if p > 0 && labels@[p - 1]@ == label {
                x + value(eps)
            } else {
                x
            }
        }),
{
    let names = crate::names::str_views(labels@);
    assert(crate::parameters_regressor::is_perturbed(ops, eps, names, before, after));
    assert(names.len() == labels@.len());
    assert(p > 0 ==> names[p - 1] == labels@[p - 1]@);
    lemma_places(ops, before, names, eps, after, value, b, p, label);
}

/// A label that is given twice takes two steps.
proof fn lemma_twice<T, O: Arithmetic<T>>(
    ops: &O,
    eps: T,
    names: Seq<Seq<char>>,
    before: PhenotypeValues<Vec<T>>,
    after: PhenotypeValues<Vec<T>>,
    i: int,
    j: int,
    k: int,
)
    requires
        crate::parameters_regressor::is_perturbed(ops, eps, names, before, after),
        0 <= i < names.len(),
        0 <= j < names.len(),
        names[i] == names[j],
        0 <= k < before.value(names[j])->0@.len(),
        k % (names.len() + 1) as int == j + 1,
    ensures
        crate::scalar::sum_of(
            ops,
            before.value(names[j])->0@[k],
            eps,
            after.value(names[j])->0@[k],
        ),
{
    assert(crate::parameters_regressor::is_bumped(
        ops,
        eps,
        j,
        crate::parameters_regressor::row_len(names),
        before.value(names[j])->0@,
        after.value(names[j])->0@,
    ));
}

/// In exact arithmetic the slope of a coordinate of a sample in a label is how much
/// the body of the label is off the first body of its run, at the vertex that
/// the sample names, times the number of steps in one.
pub proof fn law_slopes<T: Copy, O: Arithmetic<T>>(
    ops: &O,
    points: Vec<Vec<[T; 3]>>,
    samples: Vec<u32>,
    n_labels: usize,
    batch: usize,
    per_step: T,
    jacobian: Vec<Vec<Vec<T>>>,
    value: spec_fn(T) -> real,
    b: int,
    s: int,
    c: int,
    l: int,
)
    requires
        crate::scalar::is_exact(ops, value),
        call_ensures(
            crate::parameters_regressor::phenotype_step::macro_jacobian::<T, O>,
            (&points, &samples, n_labels, batch, ops, per_step),
            jacobian,
        ),
        0 <= b < batch,
        0 <= s < samples@.len(),
        0 <= c < 3,
        0 <= l < n_labels,
    ensures
        jacobian@.len() == batch,
        jacobian@[b]@.len() == 3 * samples@.len(),
        jacobian@[b]@[3 * s + c]@.len() == n_labels,
        ({
            let first = points@[b * (n_labels + 1)]@[samples@[s] as int]@[c];
            let moved = points@[b * (n_labels + 1) + (l + 1)]@[samples@[s] as int]@[c];
            value(jacobian@[b]@[3 * s + c]@[l]) == (value(moved) - value(first)) * value(per_step)
        }),
{
    assert(crate::parameters_regressor::phenotype_step::are_all_slopes(
        ops,
        per_step,
        points@,
        samples@,
        n_labels as int,
        batch as int,
        jacobian@,
    ));
    assert(crate::parameters_regressor::phenotype_step::is_row(
        ops,
        per_step,
        points@,
        samples@,
        n_labels as int,
        jacobian@[b]@,
        b,
        s,
        c,
    ));
    let xs = jacobian@[b]@[3 * s + c]@;
    assert(crate::parameters_regressor::phenotype_step::is_slope(
        ops,
        per_step,
        points@,
        samples@,
        n_labels as int,
        b,
        s,
        c,
        l,
        xs[l],
    ));
}

/// In exact arithmetic a residual is what is missing: with it, a coordinate of a
/// sample that was found is that of the target.
pub proof fn law_residuals_are_missing<T: Copy, O: Arithmetic<T>>(
    ops: &O,
    target: Vec<Vec<[T; 3]>>,
    found: Vec<Vec<[T; 3]>>,
    samples: Vec<u32>,
    residual: Vec<Vec<T>>,
    value: spec_fn(T) -> real,
    b: int,
    s: int,
    c: int,
)
    requires
        crate::scalar::is_exact(ops, value),
        call_ensures(
            crate::parameters_regressor::steps::residuals::<T, O>,
            (&target, &found, &samples, ops),
            residual,
        ),
        0 <= b < target@.len(),
        0 <= s < samples@.len(),
        0 <= c < 3,
    ensures
        residual@.len() == target@.len(),
        residual@[b]@.len() == 3 * samples@.len(),
        value(found@[b]@[samples@[s] as int]@[c]) + value(residual@[b]@[3 * s + c]) == value(
            target@[b]@[samples@[s] as int]@[c],
        ),
{
    let x = residual@[b]@[3 * s + c];
    assert(crate::parameters_regressor::steps::are_residuals(
        ops,
        target@[b]@,
        found@[b]@,
        samples@,
        residual@[b]@,
    ));
}

/// In exact arithmetic a step moves the value of each key by the change of that key in
/// that element, by no more than the longest step and not out of the bounds. The
/// values under other names stay.
pub proof fn law_steps_by_name<T, O: Arithmetic<T> + Bounds<T>>(
    ops: &O,
    bounds: StepBounds<T>,
    delta: Seq<Vec<T>>,
    keys: Seq<Seq<char>>,
    before: PhenotypeValues<Vec<T>>,
    after: PhenotypeValues<Vec<T>>,
    value: spec_fn(T) -> real,
    label: Seq<char>,
    i: int,
    b: int,
)
    requires
        crate::scalar::is_exact(ops, value),
        crate::scalar::compares(ops, value),
        0 as real <= value(bounds.most),
        value(bounds.low) <= value(bounds.high),
        crate::parameters_regressor::are_stepped(
            ops,
            bounds,
            delta,
            keys,
            before,
            after,
            keys.len() as int,
        ),
        before.value(label) is Some,
        0 <= b < before.value(label)->0@.len(),
    ensures
        after.value(label) is Some,
        !keys.contains(label) ==> after.value(label) == before.value(label),
        0 <= i < keys.len() && keys[i] == label ==> value(after.value(label)->0@[b]) == between(
            value(before.value(label)->0@[b]) + between(
                value(delta[b]@[i]),
                -value(bounds.most),
                value(bounds.most),
            ),
            value(bounds.low),
            value(bounds.high),
        ),
{
    assert(keys.take(keys.len() as int) =~= keys);
    if 0 <= i < keys.len() && keys[i] == label {
        let (x, y) = (before.value(keys[i])->0@, after.value(keys[i])->0@);
        assert(crate::parameters_regressor::is_stepped(ops, bounds, delta, i, x, y));
        let (d, most, low, high) = (delta[b]@[i], bounds.most, bounds.low, bounds.high);
        assert(crate::utils::bounds::is_damped_step(ops, x[b], d, most, low, high, y[b]));
        let (least, way, sum) = choose|least: T, way: T, sum: T|
            {
                &&& #[trigger] crate::scalar::negative_of(ops, most, least)
                &&& crate::utils::bounds::is_clamped(ops, d, least, most, way)
                &&& #[trigger] crate::scalar::sum_of(ops, x[b], way, sum)
                &&& crate::utils::bounds::is_clamped(ops, sum, low, high, y[b])
            };
        crate::utils::bounds::law_clamped(ops, d, least, most, way, value);
        crate::utils::bounds::law_clamped(ops, sum, low, high, y[b], value);
    } else if keys.contains(label) {
        let j = choose|j: int| 0 <= j < keys.len() && keys[j] == label;
        assert(after.value(keys[j]) is Some);
    } else {
        assert(after.value(label) == before.value(label));
    }
}

/// A number, brought between two bounds.
pub open spec fn between(x: real, low: real, high: real) -> real {
    if x < low {
        low
    } else if x > high {
        high
    } else {
        x
    }
}

/// The column of a key is one of its label, and the keys are the labels that are
/// not excluded.
pub proof fn law_key_columns(
    labels: Vec<&'static str>,
    keys: Vec<&'static str>,
    columns: Vec<usize>,
    i: int,
)
    requires
        call_ensures(
            crate::parameters_regressor::key_columns,
            (&labels, &keys),
            columns,
        ),
        0 <= i < keys@.len(),
    ensures
        columns@.len() == keys@.len(),
        columns@[i] < labels@.len(),
        labels@[columns@[i] as int]@ == keys@[i]@,
{
    crate::names::lemma_last_at(crate::names::str_views(labels@), keys@[i]@);
}

/// The weight of a key is the last that is given under its name; without any it
/// is one.
pub proof fn law_weights_by_name<T: Copy>(
    keys: Vec<&'static str>,
    weights: Vec<(String, T)>,
    one: T,
    r: Vec<T>,
    i: int,
    j: int,
)
    requires
        call_ensures(
            crate::parameters_regressor::regularisation::<T>,
            (&keys, &weights, one),
            r,
        ),
        0 <= i < keys@.len(),
    ensures
        r@.len() == keys@.len(),
        (forall|k: int| 0 <= k < weights@.len() ==> (#[trigger] weights@[k]).0@ != keys@[i]@)
            ==> r@[i] == one,
        0 <= j < weights@.len() && weights@[j].0@ == keys@[i]@ && (forall|k: int|
            j < k < weights@.len() ==> (#[trigger] weights@[k]).0@ != keys@[i]@) ==> r@[i]
            == weights@[j].1,
{
    let names = crate::parameters_regressor::weight_names(weights@);
    let key = keys@[i]@;
    crate::names::lemma_last_at(names, key);
    if 0 <= j < weights@.len() && weights@[j].0@ == keys@[i]@ && (forall|k: int|
        j < k < weights@.len() ==> (#[trigger] weights@[k]).0@ != keys@[i]@) {
        assert forall|k: int| j < k < names.len() implies #[trigger] names[k] != key by {
            assert(weights@[k].0@ != key);
        }
        crate::names::lemma_last_at_is(names, key, j);
    }
    assert(r@[i] == crate::parameters_regressor::weight_of(weights@, key, one));
    if forall|k: int| 0 <= k < weights@.len() ==> (#[trigger] weights@[k]).0@ != keys@[i]@ {
        match crate::names::last_at(names, key) {
            Some(k) => {
                assert(names[k] == weights@[k].0@);
            },
            None => {},
        }
    }
}

} // verus!
