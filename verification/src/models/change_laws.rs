//! Changes for labels that a model does not have are passed over.
use vstd::prelude::*;

use crate::kinematics::bone_poses::EndpointOps;
use crate::models::body::Model;
use crate::models::forward::{ForwardError, ForwardOutput, ShapeError};
use crate::models::pose::PoseParameterization;
use crate::phenotype::PhenotypeValues;
use crate::scalar::{Arithmetic, Bounds, Division};
use crate::skinning::dual::MotionOps;

verus! {

/// The lists give the same values for the labels.
pub open spec fn change_alike<T>(
    labels: Seq<String>,
    a: Seq<(String, Vec<T>)>,
    b: Seq<(String, Vec<T>)>,
) -> bool {
    forall|i: int|
        0 <= i < labels.len() ==> crate::models::local_changes::change_for(
            a,
            (#[trigger] labels[i])@,
        ) == crate::models::local_changes::change_for(b, labels[i]@)
}

proof fn lemma_other<T>(
    changes: Seq<(String, Vec<T>)>,
    at: int,
    other: (String, Vec<T>),
    label: Seq<char>,
)
    requires
        0 <= at <= changes.len(),
        other.0@ != label,
    ensures
        crate::models::local_changes::change_for(changes.insert(at, other), label)
            == crate::models::local_changes::change_for(changes, label),
{
    let more = changes.insert(at, other);
    let names = crate::models::local_changes::change_names(changes);
    let all = crate::models::local_changes::change_names(more);
    assert(all =~= names.insert(at, other.0@));
    crate::names::lemma_first_at(names, label);
    crate::names::lemma_first_at(all, label);
    match crate::names::first_at(names, label) {
        Some(i) => {
            let j = if i < at {
                i
            } else {
                i + 1
            };
            assert(all[j] == label);
            assert forall|l: int| 0 <= l < j implies all[l] != label by {
                if l < at {
                    assert(all[l] == names[l]);
                } else if l > at {
                    assert(all[l] == names[l - 1]);
                }
            }
            crate::names::lemma_first_at_is(all, label, j);
        },
        None => {
            assert forall|l: int| 0 <= l < all.len() implies all[l] != label by {
                if l < at {
                    assert(all[l] == names[l]);
                } else if l > at {
                    assert(all[l] == names[l - 1]);
                }
            }
        },
    }
}

proof fn lemma_joined_alike<T, O: Arithmetic<T> + Bounds<T>>(
    ops: &O,
    zero: T,
    labels: Seq<String>,
    a: Seq<(String, Vec<T>)>,
    b: Seq<(String, Vec<T>)>,
    gated: Seq<Vec<T>>,
    whole: Seq<Vec<T>>,
)
    requires
        change_alike(labels, a, b),
        crate::models::forward::are_joined(ops, zero, labels, a, gated, whole),
    ensures
        crate::models::forward::are_joined(ops, zero, labels, b, gated, whole),
{
    assert forall|e: int| 0 <= e < whole.len() implies {
        let row = (#[trigger] whole[e])@;
        let n = gated[e]@.len() as int;
        crate::models::local_changes::is_activation_row(ops, zero, labels, b, e, row.skip(n))
    } by {
        let rest = whole[e]@.skip(gated[e]@.len() as int);
        assert forall|i: int|
            0 <= i < labels.len() implies crate::models::local_changes::is_activation(
            ops,
            zero,
            b,
            (#[trigger] labels[i])@,
            e,
            rest[2 * i],
            rest[2 * i + 1],
        ) by {
            assert(crate::models::local_changes::is_activation(
                ops,
                zero,
                a,
                labels[i]@,
                e,
                rest[2 * i],
                rest[2 * i + 1],
            ));
        }
    }
}

proof fn lemma_shape_alike<T: Copy, O: Division<T> + Bounds<T>>(
    ops: &O,
    third: T,
    zero: T,
    one: T,
    model: Model<T>,
    values: PhenotypeValues<Vec<T>>,
    a: Seq<(String, Vec<T>)>,
    b: Seq<(String, Vec<T>)>,
    r: Result<Vec<Vec<T>>, ShapeError>,
)
    requires
        change_alike(model.local_change_labels@, a, b),
        crate::models::forward::shape_outcome(ops, third, zero, one, model, values, a, r),
    ensures
        crate::models::forward::shape_outcome(ops, third, zero, one, model, values, b, r),
{
    let masks = model.stacked_phenotype_blend_shapes_mask@;
    let labels = model.local_change_labels@;
    if let Ok(whole) = r {
        let gated = choose|gated: Seq<Vec<T>>| #[trigger]
            crate::phenotype::rows::are_gated(
                ops,
                model.figure.extrapolate_phenotypes,
                third,
                zero,
                one,
                values,
                model.anchors,
                masks,
                gated,
            ) && crate::models::forward::are_joined(ops, zero, labels, a, gated, whole@);
        lemma_joined_alike(ops, zero, labels, a, b, gated, whole@);
        assert forall|i: int|
            0 <= i < labels.len() implies !crate::models::local_changes::change_misfits(
            b,
            (#[trigger] labels[i])@,
            whole@.len() as int,
        ) by {
            assert(!crate::models::local_changes::change_misfits(
                a,
                labels[i]@,
                whole@.len() as int,
            ));
        }
    } else if let Err(ShapeError::LocalChange(e)) = r {
        let gated = choose|gated: Seq<Vec<T>>| #[trigger]
            crate::phenotype::rows::are_gated(
                ops,
                model.figure.extrapolate_phenotypes,
                third,
                zero,
                one,
                values,
                model.anchors,
                masks,
                gated,
            ) && crate::models::local_changes::first_misfit(labels, a, gated.len() as int, e);
        let batch = gated.len() as int;
        assert forall|i: int|
            0 <= i < labels.len() implies crate::models::local_changes::change_misfits(
            b,
            (#[trigger] labels[i])@,
            batch,
        ) == crate::models::local_changes::change_misfits(a, labels[i]@, batch) by {
        }
        assert(crate::models::local_changes::first_misfit(labels, b, batch, e));
    }
}

proof fn lemma_forward_alike<T: Copy, O: EndpointOps<T> + MotionOps<T>>(
    ops: &O,
    third: T,
    zero: T,
    one: T,
    model: Model<T>,
    pose: Option<Seq<Vec<[[T; 4]; 4]>>>,
    values: PhenotypeValues<Vec<T>>,
    a: Seq<(String, Vec<T>)>,
    b: Seq<(String, Vec<T>)>,
    asked: Option<PoseParameterization>,
    r: Result<ForwardOutput<T>, ForwardError>,
)
    requires
        change_alike(model.local_change_labels@, a, b),
        crate::models::forward::forward_outcome(
            ops,
            third,
            zero,
            one,
            model,
            pose,
            values,
            a,
            asked,
            r,
        ),
    ensures
        crate::models::forward::forward_outcome(
            ops,
            third,
            zero,
            one,
            model,
            pose,
            values,
            b,
            asked,
            r,
        ),
{
    if let Err(ForwardError::Shape(e)) = r {
        lemma_shape_alike(ops, third, zero, one, model, values, a, b, Err(e));
    } else {
        let mode = crate::models::forward::chosen(
            asked,
            model.figure.default_pose_parameterization,
        );
        let coefficients = choose|coefficients: Vec<Vec<T>>| #[trigger]
            crate::models::forward::shape_outcome(
                ops,
                third,
                zero,
                one,
                model,
                values,
                a,
                Ok(coefficients),
            ) && crate::models::forward::posed_outcome(
                ops,
                zero,
                one,
                model,
                coefficients@,
                pose,
                mode,
                r,
            );
        lemma_shape_alike(ops, third, zero, one, model, values, a, b, Ok(coefficients));
    }
}

/// A change for a label that the model does not have makes no difference to
/// what a forward pass comes to, wherever it stands among the changes.
pub proof fn law_unknown_changes_ignored<
    T: Copy,
    O: EndpointOps<T> + MotionOps<T>,
>(
    ops: &O,
    third: T,
    zero: T,
    one: T,
    model: Model<T>,
    pose: Option<Seq<Vec<[[T; 4]; 4]>>>,
    values: PhenotypeValues<Vec<T>>,
    changes: Seq<(String, Vec<T>)>,
    at: int,
    other: (String, Vec<T>),
    asked: Option<PoseParameterization>,
    r: Result<ForwardOutput<T>, ForwardError>,
)
    requires
        0 <= at <= changes.len(),
        forall|i: int|
            0 <= i < model.local_change_labels@.len() ==> (
            #[trigger] model.local_change_labels@[i])@ != other.0@,
    ensures
        crate::models::forward::forward_outcome(
            ops,
            third,
            zero,
            one,
            model,
            pose,
            values,
            changes,
            asked,
            r,
        ) <==> crate::models::forward::forward_outcome(
            ops,
            third,
            zero,
            one,
            model,
            pose,
            values,
            changes.insert(at, other),
            asked,
            r,
        ),
{
    let labels = model.local_change_labels@;
    let more = changes.insert(at, other);
    assert forall|i: int| 0 <= i < labels.len() implies crate::models::local_changes::change_for(
        more,
        (#[trigger] labels[i])@,
    ) == crate::models::local_changes::change_for(changes, labels[i]@) by {
        lemma_other(changes, at, other, labels[i]@);
    }
    if crate::models::forward::forward_outcome(
        ops,
        third,
        zero,
        one,
        model,
        pose,
        values,
        changes,
        asked,
        r,
    ) {
        lemma_forward_alike(
            ops,
            third,
            zero,
            one,
            model,
            pose,
            values,
            changes,
            more,
            asked,
            r,
        );
    }
    if crate::models::forward::forward_outcome(
        ops,
        third,
        zero,
        one,
        model,
        pose,
        values,
        more,
        asked,
        r,
    ) {
        lemma_forward_alike(
            ops,
            third,
            zero,
            one,
            model,
            pose,
            values,
            more,
            changes,
            asked,
            r,
        );
    }
}

} // verus!
