//! Which local changes a model offers.
use vstd::prelude::*;

use crate::models::blend_shapes::ShapePlan;
use crate::models::body::{BodySources, BuildSteps, Measures, Model};
use crate::models::full_model::ModelOptions;
use crate::models::macrodetails::TargetGroup;
use crate::phenotype::PhenotypeAnchors;
use crate::rotation::AngleOps;
use crate::scalar::{Division, Signs};
use crate::utils::mean::MeanOps;

verus! {

/// The changes of a group are those of one of the wanted groups of the catalogue.
pub open spec fn is_wanted(group: TargetGroup, genitals: bool) -> bool {
    group.name@ != "genitals"@ || genitals
}

/// `label` is the label of a change of the group.
pub open spec fn offers(group: TargetGroup, label: Seq<char>) -> bool {
    exists|i: int|
        {
            &&& 0 <= i < crate::models::macrodetails::group_changes(
                group,
                group.categories@.len(),
            ).len()
            &&& (#[trigger] crate::models::macrodetails::group_changes(
                group,
                group.categories@.len(),
            )[i]).positive == label
        }
}

proof fn lemma_listed(
    groups: Seq<TargetGroup>,
    order: Seq<usize>,
    genitals: bool,
    n: nat,
    k: int,
    label: Seq<char>,
) -> (at: int)
    requires
        0 <= k < n,
        is_wanted(groups[order[k] as int], genitals),
        offers(groups[order[k] as int], label),
    ensures
        0 <= at < crate::models::macrodetails::ordered_changes(groups, order, genitals, n).len(),
        crate::models::macrodetails::ordered_changes(groups, order, genitals, n)[at].positive
            == label,
    decreases n,
{
    let before = crate::models::macrodetails::ordered_changes(
        groups,
        order,
        genitals,
        (n - 1) as nat,
    );
    let now = crate::models::macrodetails::ordered_changes(groups, order, genitals, n);
    if k < n - 1 {
        let at = lemma_listed(groups, order, genitals, (n - 1) as nat, k, label);
        assert(now[at] == before[at]);
        at
    } else {
        let group = groups[order[k] as int];
        let added = crate::models::macrodetails::group_changes(group, group.categories@.len());
        let i = choose|i: int| 0 <= i < added.len() && (#[trigger] added[i]).positive == label;
        assert(now[before.len() + i] == added[i]);
        before.len() + i
    }
}

proof fn lemma_offered(
    groups: Seq<TargetGroup>,
    order: Seq<usize>,
    genitals: bool,
    n: nat,
    at: int,
) -> (k: int)
    requires
        0 <= at < crate::models::macrodetails::ordered_changes(groups, order, genitals, n).len(),
    ensures
        0 <= k < n,
        is_wanted(groups[order[k] as int], genitals),
        offers(
            groups[order[k] as int],
            crate::models::macrodetails::ordered_changes(groups, order, genitals, n)[at].positive,
        ),
    decreases n,
{
    let before = crate::models::macrodetails::ordered_changes(
        groups,
        order,
        genitals,
        (n - 1) as nat,
    );
    let now = crate::models::macrodetails::ordered_changes(groups, order, genitals, n);
    if at < before.len() {
        assert(now[at] == before[at]);
        lemma_offered(groups, order, genitals, (n - 1) as nat, at)
    } else {
        let group = groups[order[n - 1] as int];
        let added = crate::models::macrodetails::group_changes(group, group.categories@.len());
        assert(now[at] == added[at - before.len()]);
        n - 1
    }
}

pub proof fn lemma_every_position(names: Seq<Seq<char>>, order: Seq<usize>, g: int) -> (k: int)
    requires
        crate::names::is_alphabetical(names, order),
        0 <= g < names.len(),
        names.len() <= usize::MAX,
    ensures
        0 <= k < order.len(),
        order[k] == g,
{
    if !order.contains(g as usize) {
        let more = order.push(g as usize);
        assert forall|i: int, j: int|
            0 <= i < more.len() && 0 <= j < more.len() && i != j implies more[i] != more[j] by {
            if i == order.len() {
                assert(order[j] != g as usize);
            }
            if j == order.len() {
                assert(order[i] != g as usize);
            }
        }
        assert forall|i: int| 0 <= i < more.len() implies #[trigger] more[i] < names.len() by {
            if i < order.len() {
                assert(more[i] == order[i]);
            }
        }
        crate::utils::index::lemma_distinct_bounded(more, names.len());
    }
    choose|k: int| 0 <= k < order.len() && order[k] == g as usize
}

/// The labels of the local changes of a model are those of the wanted groups of the
/// catalogue: without the wish for the genitals none of their labels is there for
/// their sake, and with it all of them are.
pub proof fn law_labels_of_wanted_groups<
    T: Copy,
    O: Division<T> + Signs<T> + MeanOps<T> + AngleOps<T>,
>(
    ops: &O,
    measures: Measures<T>,
    opts: ModelOptions,
    sources: BodySources<T>,
    anchors: PhenotypeAnchors<T>,
    model: Model<T>,
    label: Seq<char>,
)
    requires
        crate::models::body::build_outcome(ops, measures, opts, sources, anchors, Ok(model)),
        sources.targets.groups@.len() <= usize::MAX,
    ensures
        crate::names::views(model.local_change_labels@).contains(label) <==> exists|g: int|
            {
                &&& 0 <= g < sources.targets.groups@.len()
                &&& is_wanted(
                    #[trigger] sources.targets.groups@[g],
                    opts.include_genital_morphs,
                )
                &&& offers(sources.targets.groups@[g], label)
            },
{
    let s = choose|s: BuildSteps<T>| #[trigger]
        crate::models::body::is_model(ops, measures, opts, sources, anchors, s, model);
    let groups = sources.targets.groups@;
    let genitals = opts.include_genital_morphs;
    let plan = choose|plan: ShapePlan| #[trigger]
        crate::models::blend_shapes::is_shape_plan(groups, genitals, plan)
            && crate::models::blend_shapes::is_stacked(
            ops,
            crate::rotation::rows3(s.world),
            measures.newborn,
            measures.one,
            s.template@,
            plan,
            sources.targets,
            s.stacked,
        );
    let names = crate::models::macrodetails::group_names(groups);
    let order = choose|order: Seq<usize>| #[trigger]
        crate::names::is_alphabetical(names, order) && crate::models::macrodetails::are_changes(
            plan.changes@,
            crate::models::macrodetails::ordered_changes(groups, order, genitals, groups.len()),
        );
    let entries = crate::models::macrodetails::ordered_changes(
        groups,
        order,
        genitals,
        groups.len(),
    );
    let labels = crate::names::views(model.local_change_labels@);
    assert forall|j: int| 0 <= j < entries.len() implies #[trigger] labels[j]
        == entries[j].positive by {
        assert(s.stacked.local_change_labels@[j]@ == plan.changes@[j].positive@);
        assert(crate::models::macrodetails::is_change(plan.changes@[j], entries[j]));
    }
    if labels.contains(label) {
        let j = choose|j: int| 0 <= j < labels.len() && labels[j] == label;
        let k = lemma_offered(groups, order, genitals, groups.len(), j);
        assert(0 <= order[k] < names.len());
        assert(is_wanted(groups[order[k] as int], genitals));
    }
    if exists|g: int|
        {
            &&& 0 <= g < groups.len()
            &&& is_wanted(#[trigger] groups[g], genitals)
            &&& offers(groups[g], label)
        } {
        let g = choose|g: int|
            {
                &&& 0 <= g < groups.len()
                &&& is_wanted(#[trigger] groups[g], genitals)
                &&& offers(groups[g], label)
            };
        let k = lemma_every_position(names, order, g);
        let at = lemma_listed(groups, order, genitals, groups.len(), k, label);
        assert(labels[at] == label);
    }
}

} // verus!
