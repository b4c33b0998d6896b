//! What taking bones out of a hierarchy keeps, and what the weights of a vertex
//! sum to.
use vstd::prelude::*;

use crate::models::rig::{Bones, VertexBoneMatrix, WeightsJson};
use crate::scalar::{Division, Signs};

verus! {

/// Taking bones out leaves parents before their children, and lists of one
/// length.
pub proof fn law_removals_keep_topology<R, T>(
    h: Bones<R, T>,
    names: Seq<Seq<char>>,
    n: nat,
    m: Bones<R, T>,
)
    requires
        crate::models::rig::same_lengths(h),
        crate::models::rig::topological(h.parents),
        crate::models::rig::removals(h, names, n) == Some(m),
    ensures
        crate::models::rig::same_lengths(m),
        crate::models::rig::topological(m.parents),
        m.labels.len() == h.labels.len() - n,
    decreases n,
{
    if n > 0 {
        let before = crate::models::rig::removals(h, names, (n - 1) as nat)->0;
        law_removals_keep_topology(h, names, (n - 1) as nat, before);
        let idx = crate::names::first_at(before.labels, names[n - 1])->0;
        crate::names::lemma_first_at(before.labels, names[n - 1]);
        let above = before.parents[idx];
        let moved = before.parents.map_values(
            |p: int| crate::models::rig::reparented(p, idx, above),
        );
        assert forall|i: int| 0 <= i < m.parents.len() implies -1 <= #[trigger] m.parents[i]
            < i by {
            let j = if i < idx {
                i
            } else {
                i + 1
            };
            assert(m.parents[i] == moved[j]);
            assert(moved[j] == crate::models::rig::reparented(before.parents[j], idx, above));
            assert(-1 <= before.parents[j] < j);
            assert(-1 <= before.parents[idx] < idx);
        }
    }
}

/// The labels that are not among `gone`, in their order.
pub open spec fn kept(labels: Seq<Seq<char>>, gone: Seq<Seq<char>>) -> Seq<Seq<char>>
    decreases labels.len(),
{
    if labels.len() == 0 {
        Seq::empty()
    } else if gone.contains(labels.last()) {
        kept(labels.drop_last(), gone)
    } else {
        kept(labels.drop_last(), gone).push(labels.last())
    }
}

pub proof fn lemma_kept_members(labels: Seq<Seq<char>>, gone: Seq<Seq<char>>)
    ensures
        forall|l: Seq<char>| #[trigger]
            kept(labels, gone).contains(l) <==> labels.contains(l) && !gone.contains(l),
        labels.no_duplicates() ==> kept(labels, gone).no_duplicates(),
    decreases labels.len(),
{
    if labels.len() > 0 {
        let front = labels.drop_last();
        let last = labels.last();
        lemma_kept_members(front, gone);
        let k = kept(front, gone);
        assert forall|l: Seq<char>| labels.contains(l) <==> front.contains(l) || l == last by {
            if front.contains(l) {
                let i = choose|i: int| 0 <= i < front.len() && front[i] == l;
                assert(labels[i] == l);
            }
            assert(labels[labels.len() - 1] == last);
            if labels.contains(l) && l != last {
                let i = choose|i: int| 0 <= i < labels.len() && labels[i] == l;
                assert(front[i] == l);
            }
        }
        assert forall|l: Seq<char>| #[trigger] k.push(last).contains(l) <==> k.contains(l) || l
            == last by {
            if k.contains(l) {
                let i = choose|i: int| 0 <= i < k.len() && k[i] == l;
                assert(k.push(last)[i] == l);
            }
            assert(k.push(last)[k.len() as int] == last);
        }
        if labels.no_duplicates() {
            assert(front.no_duplicates());
            assert(!front.contains(last)) by {
                if front.contains(last) {
                    let i = choose|i: int| 0 <= i < front.len() && front[i] == last;
                    assert(labels[i] == labels[labels.len() - 1]);
                }
            }
            assert(!k.contains(last));
            assert(k.push(last).no_duplicates());
        }
    } else {
        assert(!labels.contains(labels[0])) by {
            assert(labels.len() == 0);
        }
    }
}

proof fn lemma_kept_one_more(labels: Seq<Seq<char>>, gone: Seq<Seq<char>>, x: Seq<char>)
    ensures
        kept(labels, gone.push(x)) == kept(kept(labels, gone), seq![x]),
    decreases labels.len(),
{
    assert forall|l: Seq<char>| #[trigger] gone.push(x).contains(l) <==> gone.contains(l) || l
        == x by {
        if gone.contains(l) {
            let i = choose|i: int| 0 <= i < gone.len() && gone[i] == l;
            assert(gone.push(x)[i] == l);
        }
        assert(gone.push(x)[gone.len() as int] == x);
    }
    assert forall|l: Seq<char>| #[trigger] seq![x].contains(l) <==> l == x by {
        assert(seq![x][0] == x);
    }
    if labels.len() > 0 {
        lemma_kept_one_more(labels.drop_last(), gone, x);
        if !gone.contains(labels.last()) {
            let k = kept(labels.drop_last(), gone);
            assert(k.push(labels.last()).drop_last() == k);
        }
    }
}

proof fn lemma_kept_removes(labels: Seq<Seq<char>>, idx: int)
    requires
        labels.no_duplicates(),
        0 <= idx < labels.len(),
    ensures
        kept(labels, seq![labels[idx]]) == labels.remove(idx),
    decreases labels.len(),
{
    let x = labels[idx];
    let front = labels.drop_last();
    assert forall|l: Seq<char>| #[trigger] seq![x].contains(l) <==> l == x by {
        assert(seq![x][0] == x);
    }
    if idx == labels.len() - 1 {
        lemma_kept_untouched(front, x);
        assert(labels.remove(idx) == front);
    } else {
        assert(front[idx] == x);
        lemma_kept_removes(front, idx);
        assert(labels.last() != x);
        assert(labels.remove(idx) == front.remove(idx).push(labels.last()));
    }
}

proof fn lemma_kept_untouched(labels: Seq<Seq<char>>, x: Seq<char>)
    requires
        !labels.contains(x),
    ensures
        kept(labels, seq![x]) == labels,
    decreases labels.len(),
{
    if labels.len() > 0 {
        let front = labels.drop_last();
        assert(labels[labels.len() - 1] == labels.last());
        assert(labels.last() != x);
        assert(!front.contains(x)) by {
            if front.contains(x) {
                let i = choose|i: int| 0 <= i < front.len() && front[i] == x;
                assert(labels[i] == x);
            }
        }
        lemma_kept_untouched(front, x);
        assert(seq![x][0] == x);
        assert(front.push(labels.last()) == labels);
    } else {
        assert(kept(labels, seq![x]) == labels);
    }
}

/// After removals exactly the other labels are left, in their order. So the
/// labels do not depend on the order of the removals.
pub proof fn law_removals_labels<R, T>(
    h: Bones<R, T>,
    names: Seq<Seq<char>>,
    n: nat,
    m: Bones<R, T>,
)
    requires
        n <= names.len(),
        h.labels.no_duplicates(),
        crate::models::rig::removals(h, names, n) == Some(m),
    ensures
        m.labels == kept(h.labels, names.take(n as int)),
        m.labels.no_duplicates(),
    decreases n,
{
    if n == 0 {
        lemma_kept_all(h.labels);
        assert(names.take(0) == Seq::<Seq<char>>::empty());
    } else {
        let before = crate::models::rig::removals(h, names, (n - 1) as nat)->0;
        law_removals_labels(h, names, (n - 1) as nat, before);
        let x = names[n - 1];
        let gone = names.take(n - 1);
        let idx = crate::names::first_at(before.labels, x)->0;
        crate::names::lemma_first_at(before.labels, x);
        assert(names.take(n as int) == gone.push(x));
        lemma_kept_one_more(h.labels, gone, x);
        lemma_kept_removes(before.labels, idx);
        lemma_kept_members(h.labels, names.take(n as int));
    }
}

proof fn lemma_kept_all(labels: Seq<Seq<char>>)
    ensures
        kept(labels, Seq::empty()) == labels,
    decreases labels.len(),
{
    if labels.len() > 0 {
        lemma_kept_all(labels.drop_last());
        assert(labels.drop_last().push(labels.last()) == labels);
    } else {
        assert(kept(labels, Seq::empty()) == labels);
    }
}

/// The label of a bone's parent.
pub open spec fn parent_label<R, T>(h: Bones<R, T>, i: int) -> Option<Seq<char>> {
    if h.parents[i] < 0 {
        None
    } else {
        Some(h.labels[h.parents[i]])
    }
}

/// The label of the nearest ancestor of bone `i` that is not among `gone`.
pub open spec fn nearest<R, T>(h: Bones<R, T>, i: int, gone: Seq<Seq<char>>) -> Option<Seq<char>>
    decreases i,
{
    let p = h.parents[i];
    if p < 0 || p >= i {
        None
    } else if gone.contains(h.labels[p]) {
        nearest(h, p, gone)
    } else {
        Some(h.labels[p])
    }
}

proof fn lemma_nearest_above<R, T>(h: Bones<R, T>, i: int, ix: int, gone: Seq<Seq<char>>)
    requires
        crate::models::rig::same_lengths(h),
        crate::models::rig::topological(h.parents),
        h.labels.no_duplicates(),
        0 <= i <= ix < h.labels.len(),
    ensures
        nearest(h, i, gone.push(h.labels[ix])) == nearest(h, i, gone),
    decreases i,
{
    let x = h.labels[ix];
    let p = h.parents[i];
    if p >= 0 {
        assert(h.labels[p] != x);
        lemma_push_contains(gone, x, h.labels[p]);
        lemma_nearest_above(h, p, ix, gone);
    }
}

proof fn lemma_push_contains(gone: Seq<Seq<char>>, x: Seq<char>, l: Seq<char>)
    ensures
        gone.push(x).contains(l) <==> gone.contains(l) || l == x,
{
    if gone.contains(l) {
        let i = choose|i: int| 0 <= i < gone.len() && gone[i] == l;
        assert(gone.push(x)[i] == l);
    }
    assert(gone.push(x)[gone.len() as int] == x);
}

proof fn lemma_nearest_one_more<R, T>(h: Bones<R, T>, i: int, ix: int, gone: Seq<Seq<char>>)
    requires
        crate::models::rig::same_lengths(h),
        crate::models::rig::topological(h.parents),
        h.labels.no_duplicates(),
        0 <= i < h.labels.len(),
        0 <= ix < h.labels.len(),
        !gone.contains(h.labels[ix]),
    ensures
        nearest(h, i, gone.push(h.labels[ix])) == if nearest(h, i, gone) == Some(h.labels[ix]) {
            nearest(h, ix, gone)
        } else {
            nearest(h, i, gone)
        },
    decreases i,
{
    let x = h.labels[ix];
    let p = h.parents[i];
    if p >= 0 {
        assert(-1 <= h.parents[i] < i);
        lemma_push_contains(gone, x, h.labels[p]);
        if h.labels[p] == x {
            assert(p == ix);
            lemma_nearest_above(h, ix, ix, gone);
        } else if gone.contains(h.labels[p]) {
            lemma_nearest_one_more(h, p, ix, gone);
        }
    }
}

/// After removals the parent of a bone is the nearest of its former ancestors
/// that is left. So the tree does not depend on the order of the removals.
pub proof fn law_removals_parents<R, T>(
    h: Bones<R, T>,
    names: Seq<Seq<char>>,
    n: nat,
    m: Bones<R, T>,
    i: int,
    j: int,
)
    requires
        n <= names.len(),
        crate::models::rig::same_lengths(h),
        crate::models::rig::topological(h.parents),
        h.labels.no_duplicates(),
        crate::models::rig::removals(h, names, n) == Some(m),
        0 <= i < h.labels.len(),
        0 <= j < m.labels.len(),
        h.labels[i] == m.labels[j],
    ensures
        parent_label(m, j) == nearest(h, i, names.take(n as int)),
    decreases n,
{
    law_removals_keep_topology(h, names, n, m);
    law_removals_labels(h, names, n, m);
    if n == 0 {
        assert(i == j);
        assert(-1 <= h.parents[i] < i);
        assert(names.take(0).len() == 0);
    } else {
        let before = crate::models::rig::removals(h, names, (n - 1) as nat)->0;
        law_removals_keep_topology(h, names, (n - 1) as nat, before);
        law_removals_labels(h, names, (n - 1) as nat, before);
        let x = names[n - 1];
        let gone = names.take(n - 1);
        let idx = crate::names::first_at(before.labels, x)->0;
        crate::names::lemma_first_at(before.labels, x);
        assert(names.take(n as int) == gone.push(x));
        assert(before.labels[idx] == x);
        lemma_kept_members(h.labels, gone);
        assert(kept(h.labels, gone).contains(x));
        let ix = choose|ix: int| 0 <= ix < h.labels.len() && h.labels[ix] == x;
        let j2 = if j < idx {
            j
        } else {
            j + 1
        };
        assert(m.labels[j] == before.labels[j2]);
        law_removals_parents(h, names, (n - 1) as nat, before, i, j2);
        law_removals_parents(h, names, (n - 1) as nat, before, ix, idx);
        lemma_nearest_one_more(h, i, ix, gone);
        let above = before.parents[idx];
        let moved = before.parents.map_values(
            |p: int| crate::models::rig::reparented(p, idx, above),
        );
        assert(m.parents[j] == moved[j2]);
        assert(-1 <= before.parents[j2] < j2);
        assert(-1 <= above < idx);
        let p = before.parents[j2];
        if p == idx {
            if above >= 0 {
                assert(m.labels[above] == before.labels[above]);
            }
        } else if p > idx {
            assert(m.labels[p - 1] == before.labels[p]);
            assert(before.labels[p] != x);
        } else if p >= 0 {
            assert(m.labels[p] == before.labels[p]);
            assert(before.labels[p] != x);
        }
    }
}

/// In exact arithmetic the weights of a vertex sum to one, unless they have no
/// positive sum.
pub proof fn law_skinning_rows_sum<T, O: Division<T> + Signs<T>>(
    weights: WeightsJson<T>,
    labels: Seq<String>,
    vertex_count: int,
    zero: T,
    ops: &O,
    r: VertexBoneMatrix<T>,
    value: spec_fn(T) -> real,
    v: int,
)
    requires
        crate::scalar::is_exact(ops, value),
        crate::scalar::divides_exactly(ops, value),
        crate::scalar::tells_signs(ops, value),
        value(zero) == 0 as real,
        crate::models::rig::is_vertex_bone_matrix(weights, labels, vertex_count, zero, ops, r),
        0 <= v < vertex_count,
    ensures
        ({
            let sum = crate::utils::shares::exact_total(value, r.weights@[v]@);
            sum == 1 as real || sum <= 0 as real
        }),
{
    let names = crate::names::views(labels);
    let given = crate::models::rig::padded(
        crate::models::rig::vertex_weights(weights.table(), names, v, names.len()),
        r.max_bones_per_vertex as nat,
        zero,
    );
    assert(crate::utils::shares::are_shares(ops, zero, given, r.weights@[v]@));
    crate::utils::shares::law_shares_sum_to_one(ops, zero, given, r.weights@[v]@, value);
}

} // verus!
