//! The activations of the local changes of a body.
use vstd::prelude::*;

use crate::names::same;
use crate::scalar::{Arithmetic, Bounds};

verus! {

/// The activation of a local change has the wrong number of values.
#[derive(Debug, Clone)]
pub struct LocalChangeError {
    pub label: String,
    pub len: usize,
    pub batch: usize,
}

/// `r` is `v` where that is above zero, and zero elsewhere.
pub open spec fn is_positive_part<T, O: Bounds<T>>(ops: &O, zero: T, v: T, r: T) -> bool {
    ||| crate::scalar::says_less(ops, zero, v, true) && r == v
    ||| crate::scalar::says_less(ops, zero, v, false) && r == zero
}

fn positive_part<T: Copy, O: Bounds<T>>(v: T, zero: T, ops: &O) -> (r: T)
    ensures
        is_positive_part(ops, zero, v, r),
{
    let above = ops.less(zero, v);
    assert(crate::scalar::says_less(ops, zero, v, above));
    if above {
        v
    } else {
        zero
    }
}

/// `r` is how far `v` is below zero, and zero elsewhere.
pub open spec fn is_negative_part<T, O: Arithmetic<T> + Bounds<T>>(
    ops: &O,
    zero: T,
    v: T,
    r: T,
) -> bool {
    exists|n: T| #[trigger]
        crate::scalar::negative_of(ops, v, n) && is_positive_part(ops, zero, n, r)
}

fn negative_part<T: Copy, O: Arithmetic<T> + Bounds<T>>(v: T, zero: T, ops: &O) -> (r: T)
    ensures
        is_negative_part(ops, zero, v, r),
{
    let n = ops.negative(v);
    assert(crate::scalar::negative_of(ops, v, n));
    positive_part(n, zero, ops)
}

/// The names of the changes.
pub open spec fn change_names<T>(changes: Seq<(String, Vec<T>)>) -> Seq<Seq<char>> {
    changes.map_values(|c: (String, Vec<T>)| c.0@)
}

/// The values given for a label, where there are any.
pub open spec fn change_for<T>(changes: Seq<(String, Vec<T>)>, label: Seq<char>) -> Option<Seq<T>> {
    match crate::names::first_at(change_names(changes), label) {
        Some(c) => Some(changes[c].1@),
        None => None,
    }
}

/// The values given for a label are neither one for all nor one for each
/// element of the batch.
pub open spec fn change_misfits<T>(
    changes: Seq<(String, Vec<T>)>,
    label: Seq<char>,
    batch: int,
) -> bool {
    let values = change_for(changes, label);
    values is Some && values->0.len() != 1 && values->0.len() != batch
}

/// `up` and `down` say how strongly a label is driven in one direction and in
/// the other, for one element of the batch: not at all where no value is
/// given.
pub open spec fn is_activation<T, O: Arithmetic<T> + Bounds<T>>(
    ops: &O,
    zero: T,
    changes: Seq<(String, Vec<T>)>,
    label: Seq<char>,
    element: int,
    up: T,
    down: T,
) -> bool {
    match change_for(changes, label) {
        None => up == zero && down == zero,
        Some(values) => {
            let v = if values.len() == 1 {
                values[0]
            } else {
                values[element]
            };
            is_positive_part(ops, zero, v, up) && is_negative_part(ops, zero, v, down)
        },
    }
}

/// `row` holds two columns for each label, one for each direction.
pub open spec fn is_activation_row<T, O: Arithmetic<T> + Bounds<T>>(
    ops: &O,
    zero: T,
    labels: Seq<String>,
    changes: Seq<(String, Vec<T>)>,
    element: int,
    row: Seq<T>,
) -> bool {
    &&& row.len() == 2 * labels.len()
    &&& forall|i: int|
        0 <= i < labels.len() ==> is_activation(
            ops,
            zero,
            changes,
            (#[trigger] labels[i])@,
            element,
            row[2 * i],
            row[2 * i + 1],
        )
}

fn change_position<T>(changes: &Vec<(String, Vec<T>)>, label: &str) -> (r: Option<usize>)
    ensures
        match r {
            Some(i) => crate::names::first_at(change_names(changes@), label@) == Some(i as int) && i
                < changes@.len(),
            None => crate::names::first_at(change_names(changes@), label@) is None,
        },
{
    let ghost all = change_names(changes@);
    let mut i: usize = 0;
    while i < changes.len()
        invariant
            i <= changes@.len(),
            all == change_names(changes@),
            forall|j: int| 0 <= j < i ==> all[j] != label@,
        decreases changes.len() - i,
    {
        assert(all[i as int] == changes@[i as int].0@);
        if same(changes[i].0.as_str(), label) {
            proof {
                crate::names::lemma_first_at_is(all, label@, i as int);
            }
            return Some(i);
        }
        i = i + 1;
    }
    proof {
        crate::names::lemma_first_at(all, label@);
    }
    None
}

fn activation_row<T: Copy, O: Arithmetic<T> + Bounds<T>>(
    labels: &Vec<String>,
    changes: &Vec<(String, Vec<T>)>,
    element: usize,
    batch: usize,
    zero: T,
    ops: &O,
) -> (row: Vec<T>)
    requires
        element < batch,
        forall|i: int|
            0 <= i < labels@.len() ==> !change_misfits(
                changes@,
                (#[trigger] labels@[i])@,
                batch as int,
            ),
    ensures
        is_activation_row(ops, zero, labels@, changes@, element as int, row@),
{
    let mut row: Vec<T> = Vec::new();
    for i in 0..labels.len()
        invariant
            element < batch,
            forall|i: int|
                0 <= i < labels@.len() ==> !change_misfits(
                    changes@,
                    (#[trigger] labels@[i])@,
                    batch as int,
                ),
            row@.len() == 2 * i,
            forall|j: int|
                0 <= j < i ==> is_activation(
                    ops,
                    zero,
                    changes@,
                    (#[trigger] labels@[j])@,
                    element as int,
                    row@[2 * j],
                    row@[2 * j + 1],
                ),
    {
        assert(!change_misfits(changes@, labels@[i as int]@, batch as int));
        match change_position(changes, labels[i].as_str()) {
            None => {
                row.push(zero);
                row.push(zero);
            },
            Some(c) => {
                let values = &changes[c].1;
                let v = if values.len() == 1 {
                    values[0]
                } else {
                    values[element]
                };
                row.push(positive_part(v, zero, ops));
                row.push(negative_part(v, zero, ops));
            },
        }
    }
    row
}

/// The activations of the local changes for each element of a batch: two
/// columns for each label, one for each direction. `changes` gives for a label
/// either one value for the whole batch or one for each element; a positive
/// value drives the first direction, a negative one the second. Labels without
/// a value are not driven, and values for other labels are passed over.
pub fn local_change_activations<T: Copy, O: Arithmetic<T> + Bounds<T>>(
    labels: &Vec<String>,
    changes: &Vec<(String, Vec<T>)>,
    batch: usize,
    zero: T,
    ops: &O,
) -> (r: Result<Vec<Vec<T>>, LocalChangeError>)
    ensures
        match r {
            Ok(rows) => {
                &&& forall|i: int|
                    0 <= i < labels@.len() ==> !change_misfits(
                        changes@,
                        (#[trigger] labels@[i])@,
                        batch as int,
                    )
                &&& rows@.len() == batch
                &&& forall|e: int|
                    0 <= e < batch ==> is_activation_row(
                        ops,
                        zero,
                        labels@,
                        changes@,
                        e,
                        (#[trigger] rows@[e])@,
                    )
            },
            Err(err) => first_misfit(labels@, changes@, batch as int, err),
        },
{
    for i in 0..labels.len()
        invariant
            forall|j: int|
                0 <= j < i ==> !change_misfits(changes@, (#[trigger] labels@[j])@, batch as int),
    {
        if let Some(c) = change_position(changes, labels[i].as_str()) {
            let len: usize = changes[c].1.len();
            if len != 1 && len != batch {
                assert(change_misfits(changes@, labels@[i as int]@, batch as int));
                return Err(LocalChangeError { label: labels[i].clone(), len, batch });
            }
        }
        assert(!change_misfits(changes@, labels@[i as int]@, batch as int));
    }
    let mut rows: Vec<Vec<T>> = Vec::new();
    for e in 0..batch
        invariant
            forall|j: int|
                0 <= j < labels@.len() ==> !change_misfits(
                    changes@,
                    (#[trigger] labels@[j])@,
                    batch as int,
                ),
            rows@.len() == e,
            forall|d: int|
                0 <= d < e ==> is_activation_row(
                    ops,
                    zero,
                    labels@,
                    changes@,
                    d,
                    (#[trigger] rows@[d])@,
                ),
    {
        rows.push(activation_row(labels, changes, e, batch, zero, ops));
    }
    Ok(rows)
}

/// The error is about the first label whose values do not fit the batch.
pub open spec fn first_misfit<T>(
    labels: Seq<String>,
    changes: Seq<(String, Vec<T>)>,
    batch: int,
    err: LocalChangeError,
) -> bool {
    exists|i: int|
        #![trigger labels[i]]
        {
            &&& 0 <= i < labels.len()
            &&& change_misfits(changes, labels[i]@, batch)
            &&& forall|j: int|
                0 <= j < i ==> !change_misfits(changes, (#[trigger] labels[j])@, batch)
            &&& err.label@ == labels[i]@
            &&& err.len == change_for(changes, labels[i]@)->0.len()
            &&& err.batch == batch
        }
}

/// A label is never driven both ways: in exact arithmetic one of its two
/// activations is zero, and their difference is the value given for it.
pub proof fn law_one_direction<T, O: Arithmetic<T> + Bounds<T>>(
    ops: &O,
    zero: T,
    v: T,
    up: T,
    down: T,
    value: spec_fn(T) -> real,
)
    requires
        crate::scalar::is_exact(ops, value),
        crate::scalar::compares(ops, value),
        value(zero) == 0 as real,
        is_positive_part(ops, zero, v, up),
        is_negative_part(ops, zero, v, down),
    ensures
        value(up) - value(down) == value(v),
        value(up) == 0 as real || value(down) == 0 as real,
        value(up) >= 0 as real,
        value(down) >= 0 as real,
{
}

/// Without changes nothing is driven.
pub proof fn law_no_changes<T, O: Arithmetic<T> + Bounds<T>>(
    ops: &O,
    zero: T,
    labels: Seq<String>,
    changes: Seq<(String, Vec<T>)>,
    element: int,
    row: Seq<T>,
)
    requires
        changes.len() == 0,
        is_activation_row(ops, zero, labels, changes, element, row),
    ensures
        forall|k: int| 0 <= k < row.len() ==> #[trigger] row[k] == zero,
{
    assert forall|k: int| 0 <= k < row.len() implies #[trigger] row[k] == zero by {
        let i = k / 2;
        assert(0 <= i < labels.len());
        assert(is_activation(ops, zero, changes, labels[i]@, element, row[2 * i], row[2 * i + 1]));
        crate::names::lemma_first_at(change_names(changes), labels[i]@);
        assert(k == 2 * i || k == 2 * i + 1);
    }
}

} // verus!
