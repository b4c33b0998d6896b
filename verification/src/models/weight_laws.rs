//! The skinning weights of a vertex: which bone has which share.
use vstd::prelude::*;

use crate::models::rig::{VertexBoneMatrix, WeightsJson};
use crate::scalar::{Division, Signs};

verus! {

/// What the entries of a bone give to vertex `v`, in all.
pub open spec fn given_to<T>(value: spec_fn(T) -> real, entries: Seq<(u32, T)>, v: int) -> real {
    crate::utils::sums::sum(|k: int| given_by(value, entries, v, k), entries.len())
}

/// What entry `k` gives to vertex `v`.
pub open spec fn given_by<T>(
    value: spec_fn(T) -> real,
    entries: Seq<(u32, T)>,
    v: int,
    k: int,
) -> real {
    if entries[k].0 == v {
        value(entries[k].1)
    } else {
        0 as real
    }
}

/// The entries of the bone with the label, and none where the table lacks it.
pub open spec fn of_label<T>(weights: WeightsJson<T>, label: Seq<char>) -> Seq<(u32, T)> {
    if weights.table().contains_key(label) {
        weights.table()[label]
    } else {
        Seq::empty()
    }
}

/// What the slots of a vertex hold for bone `j`, in all.
pub open spec fn held_for<T>(
    value: spec_fn(T) -> real,
    bones: Seq<u32>,
    weights: Seq<T>,
    j: int,
) -> real {
    crate::utils::sums::sum(|s: int| held_at(value, bones, weights, j, s), weights.len())
}

/// What slot `s` of a vertex holds for bone `j`.
pub open spec fn held_at<T>(
    value: spec_fn(T) -> real,
    bones: Seq<u32>,
    weights: Seq<T>,
    j: int,
    s: int,
) -> real {
    if bones[s] == j {
        value(weights[s])
    } else {
        0 as real
    }
}

/// What the slots hold for any bone.
pub open spec fn held<T>(value: spec_fn(T) -> real, weights: Seq<T>) -> real {
    crate::utils::sums::sum(|s: int| value(weights[s]), weights.len())
}

pub proof fn lemma_held_more<T>(
    value: spec_fn(T) -> real,
    bones: Seq<u32>,
    weights: Seq<T>,
    more: Seq<T>,
    b: u32,
    j: int,
)
    requires
        bones.len() == weights.len(),
    ensures
        held_for(
            value,
            bones + Seq::new(more.len(), |i: int| b),
            weights + more,
            j,
        ) == held_for(value, bones, weights, j) + if b == j {
            held(value, more)
        } else {
            0 as real
        },
        held(value, weights + more) == held(value, weights) + held(value, more),
    decreases more.len(),
{
    let all = bones + Seq::new(more.len(), |i: int| b);
    let ws = weights + more;
    let f = |s: int| held_at(value, all, ws, j, s);
    let g = |s: int| value(ws[s]);
    let h = |s: int| value(more[s]);
    if more.len() > 0 {
        let less = more.drop_last();
        lemma_held_more(value, bones, weights, less, b, j);
        let fewer = bones + Seq::new(less.len(), |i: int| b);
        let vs = weights + less;
        let n = vs.len();
        crate::utils::sums::lemma_same_sum(
            f,
            |s: int| held_at(value, fewer, vs, j, s),
            n,
        );
        crate::utils::sums::lemma_same_sum(g, |s: int| value(vs[s]), n);
        crate::utils::sums::lemma_same_sum(h, |s: int| value(less[s]), less.len());
        assert(ws.len() == n + 1);
        assert(f(n as int) == if b == j {
            value(more.last())
        } else {
            0 as real
        });
        assert(g(n as int) == value(more.last()));
        assert(h(less.len() as int) == value(more.last()));
    } else {
        assert(all =~= bones);
        assert(ws =~= weights);
    }
}

proof fn lemma_weights_for<T>(value: spec_fn(T) -> real, entries: Seq<(u32, T)>, v: int)
    ensures
        held(value, crate::models::rig::weights_for(entries, v)) == given_to(value, entries, v),
    decreases entries.len(),
{
    let now = crate::models::rig::weights_for(entries, v);
    let f = |k: int| given_by(value, entries, v, k);
    if entries.len() > 0 {
        let less = entries.drop_last();
        lemma_weights_for(value, less, v);
        let before = crate::models::rig::weights_for(less, v);
        crate::utils::sums::lemma_same_sum(
            f,
            |k: int| given_by(value, less, v, k),
            less.len(),
        );
        assert(f(less.len() as int) == if entries.last().0 == v {
            value(entries.last().1)
        } else {
            0 as real
        });
        if entries.last().0 == v {
            let g = |s: int| value(now[s]);
            assert(now == before.push(entries.last().1));
            crate::utils::sums::lemma_same_sum(g, |s: int| value(before[s]), before.len());
            assert(g(before.len() as int) == value(entries.last().1));
        }
    }
}

proof fn lemma_bones<T>(
    value: spec_fn(T) -> real,
    weights: WeightsJson<T>,
    labels: Seq<Seq<char>>,
    v: int,
    n: nat,
    j: int,
)
    requires
        n <= labels.len() <= u32::MAX,
        0 <= j,
    ensures
        crate::models::rig::vertex_bones(weights.table(), labels, v, n).len()
            == crate::models::rig::vertex_weights(weights.table(), labels, v, n).len(),
        held_for(
            value,
            crate::models::rig::vertex_bones(weights.table(), labels, v, n),
            crate::models::rig::vertex_weights(weights.table(), labels, v, n),
            j,
        ) == if j < n {
            given_to(value, of_label(weights, labels[j]), v)
        } else {
            0 as real
        },
        held(value, crate::models::rig::vertex_weights(weights.table(), labels, v, n))
            == crate::utils::sums::sum(
            |k: int| given_to(value, of_label(weights, labels[k]), v),
            n,
        ),
    decreases n,
{
    let table = weights.table();
    if n > 0 {
        lemma_bones(value, weights, labels, v, (n - 1) as nat, j);
        let bones = crate::models::rig::vertex_bones(table, labels, v, (n - 1) as nat);
        let ws = crate::models::rig::vertex_weights(table, labels, v, (n - 1) as nat);
        let entries = crate::models::rig::entries_of(table, labels[n - 1]);
        let more = crate::models::rig::weights_for(entries, v);
        assert(entries == of_label(weights, labels[n - 1]));
        lemma_weights_for(value, entries, v);
        lemma_held_more(value, bones, ws, more, (n - 1) as u32, j);
        assert(crate::models::rig::vertex_bones(table, labels, v, n) =~= bones + Seq::new(
            more.len(),
            |i: int| (n - 1) as u32,
        ));
    }
}

pub proof fn lemma_padded<T>(
    value: spec_fn(T) -> real,
    bones: Seq<u32>,
    weights: Seq<T>,
    width: nat,
    zero: T,
    j: int,
)
    requires
        bones.len() == weights.len() <= width,
        value(zero) == 0 as real,
    ensures
        held_for(
            value,
            crate::models::rig::padded(bones, width, 0),
            crate::models::rig::padded(weights, width, zero),
            j,
        ) == held_for(value, bones, weights, j),
        held(value, crate::models::rig::padded(weights, width, zero)) == held(value, weights),
    decreases width,
{
    let (p, q) = (
        crate::models::rig::padded(bones, width, 0),
        crate::models::rig::padded(weights, width, zero),
    );
    if width == weights.len() {
        assert(p =~= bones);
        assert(q =~= weights);
    } else {
        let m = (width - 1) as nat;
        lemma_padded(value, bones, weights, m, zero, j);
        let (r, s) = (
            crate::models::rig::padded(bones, m, 0),
            crate::models::rig::padded(weights, m, zero),
        );
        let f = |k: int| held_at(value, p, q, j, k);
        let g = |k: int| value(q[k]);
        crate::utils::sums::lemma_same_sum(
            f,
            |k: int| held_at(value, r, s, j, k),
            m,
        );
        crate::utils::sums::lemma_same_sum(g, |k: int| value(s[k]), m);
        assert(f(m as int) == 0 as real && g(m as int) == 0 as real);
    }
}

/// In exact arithmetic the share that the slots of a vertex hold for a bone is that of
/// the weights that the table gives the bone on that vertex in all that it gives the
/// vertex: times these, it is those.
pub proof fn law_bones_have_their_shares<T: Copy, O: Division<T> + Signs<T>>(
    ops: &O,
    weights: WeightsJson<T>,
    labels: Vec<String>,
    vertex_count: usize,
    zero: T,
    r: VertexBoneMatrix<T>,
    value: spec_fn(T) -> real,
    v: int,
    j: int,
)
    requires
        crate::scalar::is_exact(ops, value),
        crate::scalar::divides_exactly(ops, value),
        crate::scalar::tells_signs(ops, value),
        value(zero) == 0 as real,
        call_ensures(
            crate::models::rig::build_vertex_bone_matrix::<T, O>,
            (&weights, &labels, vertex_count, zero, ops),
            r,
        ),
        labels@.len() <= u32::MAX,
        0 <= v < vertex_count,
        0 <= j < labels@.len(),
        crate::utils::sums::sum(
            |k: int| given_to(value, of_label(weights, labels@[k]@), v),
            labels@.len(),
        ) > 0 as real,
    ensures
        r.indices@.len() == vertex_count,
        r.weights@.len() == vertex_count,
        r.indices@[v]@.len() == r.max_bones_per_vertex,
        r.weights@[v]@.len() == r.max_bones_per_vertex,
        held_for(value, r.indices@[v]@, r.weights@[v]@, j) * crate::utils::sums::sum(
            |k: int| given_to(value, of_label(weights, labels@[k]@), v),
            labels@.len(),
        ) == given_to(value, of_label(weights, labels@[j]@), v),
{
    let table = weights.table();
    let names = crate::names::views(labels@);
    let n = names.len();
    let width = r.max_bones_per_vertex as nat;
    let bones = crate::models::rig::vertex_bones(table, names, v, n);
    let ws = crate::models::rig::vertex_weights(table, names, v, n);
    lemma_bones(value, weights, names, v, n, j);
    let whole = crate::utils::sums::sum(
        |k: int| given_to(value, of_label(weights, labels@[k]@), v),
        labels@.len(),
    );
    crate::utils::sums::lemma_same_sum(
        |k: int| given_to(value, of_label(weights, labels@[k]@), v),
        |k: int| given_to(value, of_label(weights, names[k]), v),
        n,
    );
    assert(names[j] == labels@[j]@);
    assert(ws.len() <= width);
    lemma_padded(value, bones, ws, width, zero, j);
    let (p, q) = (
        crate::models::rig::padded(bones, width, 0),
        crate::models::rig::padded(ws, width, zero),
    );
    let shares = r.weights@[v]@;
    assert(r.indices@[v]@ == p);
    lemma_shares(ops, zero, p, q, shares, j, value);
    let x = held_for(value, p, shares, j);
    assert(whole * x == x * whole) by (nonlinear_arith);
}

/// Shares hold for a bone what the weights do, over all that the weights hold.
pub proof fn lemma_shares<T, O: Division<T> + Signs<T>>(
    ops: &O,
    zero: T,
    bones: Seq<u32>,
    weights: Seq<T>,
    shares: Seq<T>,
    j: int,
    value: spec_fn(T) -> real,
)
    requires
        crate::scalar::is_exact(ops, value),
        crate::scalar::divides_exactly(ops, value),
        crate::scalar::tells_signs(ops, value),
        value(zero) == 0 as real,
        bones.len() == weights.len(),
        held(value, weights) > 0 as real,
        crate::utils::shares::are_shares(ops, zero, weights, shares),
    ensures
        shares.len() == weights.len(),
        held(value, weights) * held_for(value, bones, shares, j) == held_for(
            value,
            bones,
            weights,
            j,
        ),
{
    let whole = held(value, weights);
    let sum = choose|sum: T|
        {
            &&& #[trigger] crate::utils::shares::is_total(ops, zero, weights, sum)
            &&& {
                ||| crate::scalar::says_positive(ops, sum, true)
                    && crate::utils::shares::are_quotients(ops, weights, sum, shares)
                ||| crate::scalar::says_positive(ops, sum, false) && shares == weights
            }
        };
    crate::utils::sums::lemma_total(ops, zero, weights, sum, value);
    assert(value(sum) == whole);
    let f = |s: int| held_at(value, bones, shares, j, s);
    let g = |s: int| held_at(value, bones, weights, j, s);
    assert forall|s: int| 0 <= s < weights.len() implies #[trigger] g(s) == whole * f(s) by {
        let (x, y) = (value(shares[s]), value(weights[s]));
        assert(crate::scalar::quotient_of(ops, weights[s], sum, shares[s]));
        assert(x == y / whole);
        assert(whole * x == y) by (nonlinear_arith)
            requires
                x == y / whole,
                whole > 0 as real,
        ;
        assert(whole * (0 as real) == 0 as real) by (nonlinear_arith);
    }
    crate::utils::sums::lemma_sum_times(whole, f, g, weights.len());
}

} // verus!
