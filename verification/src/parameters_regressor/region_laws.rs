//! Which vertices a bone moves, and by what shares.
use vstd::prelude::*;

use crate::parameters_regressor::Partition;
use crate::scalar::{Division, Signs};

verus! {

/// Of the first `m` bones of a vertex, entry `i` of those that are bone `j` and count is
/// bone `s`.
proof fn lemma_slot<T>(
    bones: Seq<u32>,
    weights: Seq<T>,
    counts: Seq<bool>,
    v: u32,
    j: int,
    m: nat,
    i: int,
) -> (s: int)
    requires
        0 <= i < crate::parameters_regressor::slots(bones, weights, counts, v, j, m).len(),
    ensures
        0 <= s < m,
        counts[s],
        bones[s] == j,
        crate::parameters_regressor::slots(bones, weights, counts, v, j, m)[i] == (v, weights[s]),
    decreases m,
{
    let before = crate::parameters_regressor::slots(
        bones,
        weights,
        counts,
        v,
        j,
        (m - 1) as nat,
    );
    if i < before.len() {
        lemma_slot(bones, weights, counts, v, j, (m - 1) as nat, i)
    } else {
        m - 1
    }
}

proof fn lemma_has_slot<T>(
    bones: Seq<u32>,
    weights: Seq<T>,
    counts: Seq<bool>,
    v: u32,
    j: int,
    m: nat,
    s: int,
) -> (i: int)
    requires
        0 <= s < m,
        counts[s],
        bones[s] == j,
    ensures
        0 <= i < crate::parameters_regressor::slots(bones, weights, counts, v, j, m).len(),
        crate::parameters_regressor::slots(bones, weights, counts, v, j, m)[i] == (v, weights[s]),
    decreases m,
{
    let before = crate::parameters_regressor::slots(
        bones,
        weights,
        counts,
        v,
        j,
        (m - 1) as nat,
    );
    if s == m - 1 {
        before.len() as int
    } else {
        lemma_has_slot(bones, weights, counts, v, j, (m - 1) as nat, s)
    }
}

proof fn lemma_entry<T>(
    ids: Seq<u32>,
    bones: Seq<Vec<u32>>,
    weights: Seq<Vec<T>>,
    counts: Seq<Seq<bool>>,
    j: int,
    n: nat,
    i: int,
) -> (at: (int, int))
    requires
        n <= u32::MAX,
        0 <= i < crate::parameters_regressor::moved(ids, bones, weights, counts, j, n).len(),
    ensures
        ({
            let (v, s) = at;
            let id = ids[v] as int;
            &&& 0 <= v < n
            &&& 0 <= s < bones[id]@.len()
            &&& counts[id][s]
            &&& bones[id]@[s] == j
            &&& crate::parameters_regressor::moved(ids, bones, weights, counts, j, n)[i] == (
                v as u32,
                weights[id]@[s],
            )
        }),
    decreases n,
{
    let before = crate::parameters_regressor::moved(
        ids,
        bones,
        weights,
        counts,
        j,
        (n - 1) as nat,
    );
    if i < before.len() {
        lemma_entry(ids, bones, weights, counts, j, (n - 1) as nat, i)
    } else {
        let id = ids[n - 1] as int;
        let s = lemma_slot(
            bones[id]@,
            weights[id]@,
            counts[id],
            (n - 1) as u32,
            j,
            bones[id]@.len(),
            i - before.len(),
        );
        (n - 1, s)
    }
}

proof fn lemma_has_entry<T>(
    ids: Seq<u32>,
    bones: Seq<Vec<u32>>,
    weights: Seq<Vec<T>>,
    counts: Seq<Seq<bool>>,
    j: int,
    n: nat,
    v: int,
    s: int,
) -> (i: int)
    requires
        n <= u32::MAX,
        0 <= v < n,
        0 <= s < bones[ids[v] as int]@.len(),
        counts[ids[v] as int][s],
        bones[ids[v] as int]@[s] == j,
    ensures
        0 <= i < crate::parameters_regressor::moved(ids, bones, weights, counts, j, n).len(),
        crate::parameters_regressor::moved(ids, bones, weights, counts, j, n)[i].0 == v,
    decreases n,
{
    let before = crate::parameters_regressor::moved(
        ids,
        bones,
        weights,
        counts,
        j,
        (n - 1) as nat,
    );
    if v < n - 1 {
        lemma_has_entry(ids, bones, weights, counts, j, (n - 1) as nat, v, s)
    } else {
        let id = ids[n - 1] as int;
        let i = lemma_has_slot(
            bones[id]@,
            weights[id]@,
            counts[id],
            (n - 1) as u32,
            j,
            bones[id]@.len(),
            s,
        );
        before.len() + i
    }
}

/// Every vertex in the list of a bone is moved by that bone, with a weight that counts.
/// In exact arithmetic its share, times a total that is one for the bone, is that weight.
/// And every vertex that a bone moves with a weight that counts is in the list of the bone.
pub proof fn law_bones_list_what_they_move<
    T: Copy,
    F: Fn(&T) -> bool,
    O: Division<T> + Signs<T>,
>(
    ids: Vec<u32>,
    bones: Vec<Vec<u32>>,
    weights: Vec<Vec<T>>,
    n_bones: usize,
    significant: F,
    ops: &O,
    zero: T,
    p: Partition<T>,
    value: spec_fn(T) -> real,
    j: int,
    i: int,
    v: int,
    s: int,
) -> (found: (int, int, int, real))
    requires
        crate::scalar::is_exact(ops, value),
        crate::scalar::divides_exactly(ops, value),
        crate::scalar::tells_signs(ops, value),
        value(zero) == 0 as real,
        ids@.len() <= u32::MAX,
        bones@.len() == weights@.len(),
        forall|k: int| 0 <= k < ids@.len() ==> (#[trigger] ids@[k]) < bones@.len(),
        forall|k: int|
            0 <= k < bones@.len() ==> (#[trigger] bones@[k])@.len() == weights@[k]@.len(),
        call_ensures(
            crate::parameters_regressor::build_partition::<T, F, O>,
            (ids, &bones, &weights, n_bones, significant, ops, zero),
            p,
        ),
        0 <= j < n_bones,
    ensures
        p.unique_ids@ == ids@,
        p.joint_vertex_sets@[j]@.len() == p.vertex_joint_weights@[j]@.len(),
        0 <= i < p.joint_vertex_sets@[j]@.len() ==> {
            let (at, slot, _, total) = found;
            let id = ids@[at] as int;
            &&& 0 <= at < ids@.len()
            &&& p.joint_vertex_sets@[j]@[i] == at
            &&& 0 <= slot < bones@[id]@.len()
            &&& bones@[id]@[slot] == j
            &&& call_ensures(significant, (&weights@[id]@[slot],), true)
            &&& total > 0 as real ==> value(p.vertex_joint_weights@[j]@[i]) * total == value(
                weights@[id]@[slot],
            )
            &&& total <= 0 as real ==> p.vertex_joint_weights@[j]@[i] == weights@[id]@[slot]
        },
        0 <= v < ids@.len() && 0 <= s < bones@[ids@[v] as int]@.len() && bones@[ids@[v] as int]@[s]
            == j && !call_ensures(significant, (&weights@[ids@[v] as int]@[s],), false) ==> 0
            <= found.2 < p.joint_vertex_sets@[j]@.len() && p.joint_vertex_sets@[j]@[found.2] == v,
{
    assert(crate::parameters_regressor::is_partition(
        significant,
        ops,
        zero,
        ids@,
        bones@,
        weights@,
        n_bones as int,
        p,
    ));
    let counts = choose|counts: Seq<Seq<bool>>| #[trigger]
        crate::parameters_regressor::are_counts(significant, weights@, counts) && forall|j: int|
            0 <= j < n_bones ==> crate::parameters_regressor::is_bone_part(
                ops,
                zero,
                crate::parameters_regressor::moved(
                    ids@,
                    bones@,
                    weights@,
                    counts,
                    j,
                    ids@.len(),
                ),
                #[trigger] p.joint_vertex_sets@[j],
                p.vertex_joint_weights@[j],
            );
    let n = ids@.len();
    let entries = crate::parameters_regressor::moved(ids@, bones@, weights@, counts, j, n);
    let (list, shares) = (p.joint_vertex_sets@[j]@, p.vertex_joint_weights@[j]@);
    assert(crate::parameters_regressor::is_bone_part(
        ops,
        zero,
        entries,
        p.joint_vertex_sets@[j],
        p.vertex_joint_weights@[j],
    ));
    let row = crate::parameters_regressor::seconds(entries);
    let sum = choose|sum: T|
        {
            &&& #[trigger] crate::utils::shares::is_total(ops, zero, row, sum)
            &&& {
                ||| crate::scalar::says_positive(ops, sum, true)
                    && crate::utils::shares::are_quotients(ops, row, sum, shares)
                ||| crate::scalar::says_positive(ops, sum, false) && shares == row
            }
        };
    let total = value(sum);
    assert(list.len() == entries.len() && row.len() == entries.len());
    let (at, slot) = if 0 <= i < list.len() {
        let (at, slot) = lemma_entry(ids@, bones@, weights@, counts, j, n, i);
        let id = ids@[at] as int;
        assert(list[i] == entries[i].0);
        assert(row[i] == entries[i].1);
        assert(call_ensures(significant, (&weights@[id]@[slot],), counts[id][slot]));
        if total > 0 as real {
            assert(crate::scalar::quotient_of(ops, row[i], sum, shares[i]));
            let (x, w) = (value(shares[i]), value(row[i]));
            assert(x * total == w) by (nonlinear_arith)
                requires
                    x == w / total,
                    total > 0 as real,
            ;
        }
        (at, slot)
    } else {
        (0, 0)
    };
    let back = if 0 <= v < n && 0 <= s < bones@[ids@[v] as int]@.len()
        && bones@[ids@[v] as int]@[s] == j && !call_ensures(
        significant,
        (&weights@[ids@[v] as int]@[s],),
        false,
    ) {
        let id = ids@[v] as int;
        assert(call_ensures(significant, (&weights@[id]@[s],), counts[id][s]));
        let k = lemma_has_entry(ids@, bones@, weights@, counts, j, n, v, s);
        assert(list[k] == entries[k].0);
        k
    } else {
        0
    };
    (at, slot, back, total)
}

} // verus!
