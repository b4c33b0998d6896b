//! What a model on another mesh takes from its reference, in exact arithmetic.
use vstd::prelude::*;

use crate::models::body::Model;
use crate::models::rig::VertexBoneMatrix;
use crate::scalar::{Arithmetic, Division, Signs};

verus! {

/// Each point is made of the three points that it is taken from, by their shares.
pub open spec fn are_mixed<T>(
    value: spec_fn(T) -> real,
    points: Seq<[T; 3]>,
    shares: Seq<[T; 3]>,
    sources: Seq<[u32; 3]>,
    out: Seq<[T; 3]>,
) -> bool {
    &&& out.len() == sources.len()
    &&& forall|i: int, c: int|
        0 <= i < out.len() && 0 <= c < 3 ==> value(#[trigger] out[i]@[c]) == value(shares[i]@[0])
            * value(points[sources[i]@[0] as int]@[c]) + value(shares[i]@[1]) * value(
            points[sources[i]@[1] as int]@[c],
        ) + value(shares[i]@[2]) * value(points[sources[i]@[2] as int]@[c])
}

proof fn lemma_mixed<T, O: Arithmetic<T>>(
    ops: &O,
    zero: T,
    points: Seq<[T; 3]>,
    shares: Seq<[T; 3]>,
    sources: Seq<[u32; 3]>,
    out: Seq<[T; 3]>,
    value: spec_fn(T) -> real,
)
    requires
        crate::scalar::is_exact(ops, value),
        value(zero) == 0 as real,
        crate::models::retopology::are_interpolated(ops, zero, points, shares, sources, out),
    ensures
        are_mixed(value, points, shares, sources, out),
{
    assert forall|i: int, c: int| 0 <= i < out.len() && 0 <= c < 3 implies value(
        #[trigger] out[i]@[c],
    ) == value(shares[i]@[0]) * value(points[sources[i]@[0] as int]@[c]) + value(shares[i]@[1])
        * value(points[sources[i]@[1] as int]@[c]) + value(shares[i]@[2]) * value(
        points[sources[i]@[2] as int]@[c],
    ) by {
        let terms = crate::models::retopology::coordinate_terms(
            points,
            shares[i]@,
            sources[i]@,
            c,
        );
        let x = out[i]@[c];
        crate::utils::sums::lemma_blend(ops, zero, terms, x, value);
        let f = |k: int| value(terms[k].0) * value(terms[k].1);
        reveal_with_fuel(crate::utils::sums::sum, 4);
        assert(crate::utils::sums::sum(f, 3) == f(0) + f(1) + f(2));
    }
}

/// The weight of bone `j` at a vertex that is taken from three.
pub open spec fn mixed_weight<T>(
    value: spec_fn(T) -> real,
    table: VertexBoneMatrix<T>,
    shares: [T; 3],
    sources: [u32; 3],
    j: int,
) -> real {
    value(shares@[0]) * weight_at(value, table, sources@[0] as int, j) + value(shares@[1])
        * weight_at(value, table, sources@[1] as int, j) + value(shares@[2]) * weight_at(
        value,
        table,
        sources@[2] as int,
        j,
    )
}

/// The weight of bone `j` at vertex `v`.
pub open spec fn weight_at<T>(
    value: spec_fn(T) -> real,
    table: VertexBoneMatrix<T>,
    v: int,
    j: int,
) -> real {
    crate::models::weight_laws::held_for(value, table.indices@[v]@, table.weights@[v]@, j)
}

pub open spec fn positive(x: real) -> real {
    if x > 0 as real {
        x
    } else {
        0 as real
    }
}

/// The terms of bone `j` in a row.
proof fn lemma_row_terms<T>(
    value: spec_fn(T) -> real,
    bones: Seq<u32>,
    weights: Seq<T>,
    share: T,
    j: int,
    n: nat,
)
    requires
        n <= bones.len(),
        bones.len() == weights.len(),
    ensures
        paired(value, crate::models::retopology::row_terms(bones, weights, share, j, n))
            == value(share) * crate::utils::sums::sum(
            |s: int| crate::models::weight_laws::held_at(value, bones, weights, j, s),
            n,
        ),
    decreases n,
{
    let f = |s: int| crate::models::weight_laws::held_at(value, bones, weights, j, s);
    let now = crate::models::retopology::row_terms(bones, weights, share, j, n);
    let c = value(share);
    if n > 0 {
        lemma_row_terms(value, bones, weights, share, j, (n - 1) as nat);
        let before = crate::models::retopology::row_terms(
            bones,
            weights,
            share,
            j,
            (n - 1) as nat,
        );
        let (a, b) = (crate::utils::sums::sum(f, (n - 1) as nat), f(n - 1));
        assert(c * (a + b) == c * a + c * b) by (nonlinear_arith);
        assert(c * (0 as real) == 0 as real) by (nonlinear_arith);
        if bones[n - 1] == j {
            lemma_paired_more(value, before, seq![(share, weights[n - 1])]);
            assert(now =~= before + seq![(share, weights[n - 1])]);
            lemma_paired_one(value, (share, weights[n - 1]));
        }
    } else {
        assert(c * (0 as real) == 0 as real) by (nonlinear_arith);
    }
}

/// The sum of the products of pairs.
spec fn paired<T>(value: spec_fn(T) -> real, terms: Seq<(T, T)>) -> real {
    crate::utils::sums::sum(|k: int| value(terms[k].0) * value(terms[k].1), terms.len())
}

proof fn lemma_paired_one<T>(value: spec_fn(T) -> real, term: (T, T))
    ensures
        paired(value, seq![term]) == value(term.0) * value(term.1),
{
    let terms = seq![term];
    let f = |k: int| value(terms[k].0) * value(terms[k].1);
    reveal_with_fuel(crate::utils::sums::sum, 2);
    assert(crate::utils::sums::sum(f, 1) == f(0));
}

proof fn lemma_paired_more<T>(value: spec_fn(T) -> real, a: Seq<(T, T)>, b: Seq<(T, T)>)
    ensures
        paired(value, a + b) == paired(value, a) + paired(value, b),
    decreases b.len(),
{
    let all = a + b;
    let f = |k: int| value(all[k].0) * value(all[k].1);
    let g = |k: int| value(b[k].0) * value(b[k].1);
    if b.len() > 0 {
        let less = b.drop_last();
        lemma_paired_more(value, a, less);
        let fewer = a + less;
        crate::utils::sums::lemma_same_sum(
            f,
            |k: int| value(fewer[k].0) * value(fewer[k].1),
            fewer.len(),
        );
        crate::utils::sums::lemma_same_sum(
            g,
            |k: int| value(less[k].0) * value(less[k].1),
            less.len(),
        );
        assert(f(fewer.len() as int) == g(less.len() as int));
    } else {
        assert(all =~= a);
    }
}

proof fn lemma_bone_terms<T>(
    value: spec_fn(T) -> real,
    table: VertexBoneMatrix<T>,
    shares: [T; 3],
    sources: [u32; 3],
    j: int,
)
    requires
        crate::models::retopology::rows_match(table),
        forall|k: int| 0 <= k < 3 ==> #[trigger] sources@[k] < table.indices@.len(),
    ensures
        paired(
            value,
            crate::models::retopology::bone_terms(table, shares@, sources@, j, 3),
        ) == mixed_weight(value, table, shares, sources, j),
{
    reveal_with_fuel(crate::models::retopology::bone_terms, 4);
    let row = |k: int|
        crate::models::retopology::row_terms(
            table.indices@[sources@[k] as int]@,
            table.weights@[sources@[k] as int]@,
            shares@[k],
            j,
            table.indices@[sources@[k] as int]@.len(),
        );
    assert forall|k: int| 0 <= k < 3 implies paired(value, #[trigger] row(k)) == value(
        shares@[k],
    ) * weight_at(value, table, sources@[k] as int, j) by {
        let v = sources@[k] as int;
        assert(table.weights@[v]@.len() == table.indices@[v]@.len());
        lemma_row_terms(
            value,
            table.indices@[v]@,
            table.weights@[v]@,
            shares@[k],
            j,
            table.indices@[v]@.len(),
        );
    }
    let none = Seq::<(T, T)>::empty();
    let all = crate::models::retopology::bone_terms(table, shares@, sources@, j, 3);
    assert(all == none + row(0) + row(1) + row(2));
    lemma_paired_more(value, none, row(0));
    lemma_paired_more(value, none + row(0), row(1));
    lemma_paired_more(value, none + row(0) + row(1), row(2));
}

/// The kept bones and what they hold.
proof fn lemma_flagged<T, O: Division<T> + Signs<T>>(
    ops: &O,
    value: spec_fn(T) -> real,
    sums: Seq<T>,
    flags: Seq<bool>,
    n: nat,
    j: int,
)
    requires
        crate::scalar::tells_signs(ops, value),
        crate::models::retopology::are_flags(ops, sums, flags),
        n <= sums.len() <= u32::MAX,
        0 <= j,
    ensures
        crate::models::retopology::flagged_bones(flags, n).len()
            == crate::models::retopology::flagged_values(sums, flags, n).len(),
        crate::models::weight_laws::held_for(
            value,
            crate::models::retopology::flagged_bones(flags, n),
            crate::models::retopology::flagged_values(sums, flags, n),
            j,
        ) == if j < n {
            positive(value(sums[j]))
        } else {
            0 as real
        },
        crate::models::weight_laws::held(
            value,
            crate::models::retopology::flagged_values(sums, flags, n),
        ) == crate::utils::sums::sum(|b: int| positive(value(sums[b])), n),
    decreases n,
{
    let f = |b: int| positive(value(sums[b]));
    if n > 0 {
        lemma_flagged(ops, value, sums, flags, (n - 1) as nat, j);
        let bones = crate::models::retopology::flagged_bones(flags, (n - 1) as nat);
        let values = crate::models::retopology::flagged_values(sums, flags, (n - 1) as nat);
        assert(crate::scalar::says_positive(ops, sums[n - 1], flags[n - 1]));
        assert(f(n - 1) == positive(value(sums[n - 1])));
        if flags[n - 1] {
            let more = seq![sums[n - 1]];
            crate::models::weight_laws::lemma_held_more(
                value,
                bones,
                values,
                more,
                (n - 1) as u32,
                j,
            );
            assert(bones.push((n - 1) as u32) =~= bones + Seq::new(
                more.len(),
                |i: int| (n - 1) as u32,
            ));
            assert(values.push(sums[n - 1]) =~= values + more);
            let g = |s: int| value(more[s]);
            reveal_with_fuel(crate::utils::sums::sum, 2);
            assert(crate::utils::sums::sum(g, 1) == g(0));
            assert(crate::models::weight_laws::held(value, more) == value(sums[n - 1]));
        }
    }
}

/// In exact arithmetic the share of a bone at a vertex of the new mesh is that of its
/// weight at the three vertices that the new one is taken from, by their shares, in
/// those of all bones, where only what is above zero counts.
pub open spec fn has_mixed_share<T>(
    value: spec_fn(T) -> real,
    bones: int,
    table: VertexBoneMatrix<T>,
    shares: [T; 3],
    sources: [u32; 3],
    row: Seq<u32>,
    weights: Seq<T>,
    j: int,
) -> bool {
    let whole = crate::utils::sums::sum(
        |b: int| positive(mixed_weight(value, table, shares, sources, b)),
        bones as nat,
    );
    whole > 0 as real ==> crate::models::weight_laws::held_for(value, row, weights, j) * whole
        == positive(mixed_weight(value, table, shares, sources, j))
}

proof fn lemma_mixed_share<T, O: Division<T> + Signs<T>>(
    ops: &O,
    zero: T,
    bones: int,
    table: VertexBoneMatrix<T>,
    shares: Seq<[T; 3]>,
    sources: Seq<[u32; 3]>,
    r: VertexBoneMatrix<T>,
    value: spec_fn(T) -> real,
    i: int,
    j: int,
)
    requires
        crate::scalar::is_exact(ops, value),
        crate::scalar::divides_exactly(ops, value),
        crate::scalar::tells_signs(ops, value),
        value(zero) == 0 as real,
        0 <= bones <= u32::MAX,
        crate::models::retopology::rows_match(table),
        crate::models::retopology::sources_within(sources, table.indices@.len() as int),
        crate::models::retopology::is_interpolated_table(
            ops,
            zero,
            bones as nat,
            table,
            shares,
            sources,
            r,
        ),
        0 <= i < sources.len(),
        0 <= j < bones,
    ensures
        has_mixed_share(
            value,
            bones,
            table,
            shares[i],
            sources[i],
            r.indices@[i]@,
            r.weights@[i]@,
            j,
        ),
{
    let (bone_rows, value_rows, scaled) = choose|
        bone_rows: Seq<Seq<u32>>,
        value_rows: Seq<Seq<T>>,
        scaled: Seq<Vec<T>>,
    |
        {
            &&& #[trigger] crate::models::retopology::are_influences(
                ops,
                zero,
                bones as nat,
                table,
                shares,
                sources,
                bone_rows,
                value_rows,
            )
            &&& #[trigger] crate::models::retopology::are_share_rows(
                ops,
                zero,
                value_rows,
                scaled,
            )
            &&& crate::models::retopology::is_longest(bone_rows, r.max_bones_per_vertex as nat)
            &&& r.indices@.len() == sources.len()
            &&& r.weights@.len() == sources.len()
            &&& forall|i: int|
                0 <= i < sources.len() ==> (#[trigger] r.indices@[i])@
                    == crate::models::rig::padded(
                    bone_rows[i],
                    r.max_bones_per_vertex as nat,
                    0,
                )
            &&& forall|i: int|
                0 <= i < sources.len() ==> (#[trigger] r.weights@[i])@
                    == crate::models::rig::padded(
                    scaled[i]@,
                    r.max_bones_per_vertex as nat,
                    zero,
                )
        };
    let (row, values) = (bone_rows[i], value_rows[i]);
    assert(crate::models::retopology::is_influence(
        ops,
        zero,
        bones as nat,
        table,
        shares[i]@,
        sources[i]@,
        row,
        values,
    ));
    let (sums, flags) = choose|sums: Seq<T>, flags: Seq<bool>|
        {
            &&& sums.len() == bones
            &&& #[trigger] crate::models::retopology::are_sums(
                ops,
                zero,
                table,
                shares[i]@,
                sources[i]@,
                sums,
            )
            &&& #[trigger] crate::models::retopology::are_flags(ops, sums, flags)
            &&& row == crate::models::retopology::flagged_bones(flags, bones as nat)
            &&& values == crate::models::retopology::flagged_values(sums, flags, bones as nat)
        };
    let mixed = |b: int| positive(mixed_weight(value, table, shares[i], sources[i], b));
    assert forall|b: int| 0 <= b < bones implies value(#[trigger] sums[b]) == mixed_weight(
        value,
        table,
        shares[i],
        sources[i],
        b,
    ) by {
        let terms = crate::models::retopology::bone_terms(
            table,
            shares[i]@,
            sources[i]@,
            b,
            3,
        );
        crate::utils::sums::lemma_blend(ops, zero, terms, sums[b], value);
        lemma_bone_terms(value, table, shares[i], sources[i], b);
    }
    lemma_flagged(ops, value, sums, flags, bones as nat, j);
    crate::utils::sums::lemma_same_sum(
        mixed,
        |b: int| positive(value(sums[b])),
        bones as nat,
    );
    let whole = crate::utils::sums::sum(mixed, bones as nat);
    if whole > 0 as real {
        assert(crate::utils::shares::are_shares(ops, zero, values, scaled[i]@));
        crate::models::weight_laws::lemma_shares(ops, zero, row, values, scaled[i]@, j, value);
        crate::models::weight_laws::lemma_padded(
            value,
            row,
            scaled[i]@,
            r.max_bones_per_vertex as nat,
            zero,
            j,
        );
        let x = crate::models::weight_laws::held_for(value, row, scaled[i]@, j);
        assert(whole * x == x * whole) by (nonlinear_arith);
    }
}

/// In exact arithmetic a body on another mesh has its vertices and the offsets of each
/// of its shapes from the three vertices of the reference that each is taken from, by
/// their shares, and its skinning weights too. Its bones, its gates and its labels are
/// those of the reference.
pub proof fn law_bodies_on_another_mesh<T: Copy, O: Division<T> + Signs<T>>(
    ops: &O,
    reference: Model<T>,
    shares: Vec<[T; 3]>,
    sources: Vec<[u32; 3]>,
    faces: Vec<[u32; 3]>,
    zero: T,
    r: Model<T>,
    value: spec_fn(T) -> real,
    i: int,
    j: int,
)
    requires
        crate::scalar::is_exact(ops, value),
        crate::scalar::divides_exactly(ops, value),
        crate::scalar::tells_signs(ops, value),
        value(zero) == 0 as real,
        reference.wf(),
        reference.figure.bone_labels@.len() <= u32::MAX,
        crate::models::retopology::sources_within(
            sources@,
            reference.figure.template_vertices@.len() as int,
        ),
        call_ensures(
            crate::models::retopology::interpolate_topology::<T, O>,
            (reference, &shares, &sources, &faces, zero, ops),
            r,
        ),
        0 <= i < sources@.len(),
        0 <= j < reference.figure.bone_labels@.len(),
    ensures
        are_mixed(
            value,
            reference.figure.template_vertices@,
            shares@,
            sources@,
            r.figure.template_vertices@,
        ),
        r.blendshapes@.len() == reference.blendshapes@.len(),
        forall|s: int|
            0 <= s < r.blendshapes@.len() ==> are_mixed(
                value,
                reference.blendshapes@[s]@,
                shares@,
                sources@,
                (#[trigger] r.blendshapes@[s])@,
            ),
        has_mixed_share(
            value,
            reference.figure.bone_labels@.len() as int,
            reference.figure.vertex_bones,
            shares@[i],
            sources@[i],
            r.figure.vertex_bones.indices@[i]@,
            r.figure.vertex_bones.weights@[i]@,
            j,
        ),
        r.figure.faces@.len() == faces@.len(),
        forall|f: int|
            0 <= f < faces@.len() ==> (#[trigger] r.figure.faces@[f])@ == seq![
                faces@[f]@[0],
                faces@[f]@[1],
                faces@[f]@[2],
            ],
        r.figure.bone_labels == reference.figure.bone_labels,
        r.figure.bone_parents == reference.figure.bone_parents,
        r.template_bone_heads == reference.template_bone_heads,
        r.template_bone_tails == reference.template_bone_tails,
        r.bone_heads_blendshapes == reference.bone_heads_blendshapes,
        r.bone_tails_blendshapes == reference.bone_tails_blendshapes,
        r.bone_rolls_rotmat == reference.bone_rolls_rotmat,
        r.stacked_phenotype_blend_shapes_mask == reference.stacked_phenotype_blend_shapes_mask,
        r.anchors == reference.anchors,
        r.local_change_labels == reference.local_change_labels,
{
    let n = reference.figure.template_vertices@;
    assert(crate::models::retopology::is_retopologised(
        ops,
        zero,
        reference,
        shares@,
        sources@,
        faces@,
        r,
    ));
    lemma_mixed(ops, zero, n, shares@, sources@, r.figure.template_vertices@, value);
    assert forall|s: int| 0 <= s < r.blendshapes@.len() implies are_mixed(
        value,
        reference.blendshapes@[s]@,
        shares@,
        sources@,
        (#[trigger] r.blendshapes@[s])@,
    ) by {
        lemma_mixed(
            ops,
            zero,
            reference.blendshapes@[s]@,
            shares@,
            sources@,
            r.blendshapes@[s]@,
            value,
        );
    }
    lemma_mixed_share(
        ops,
        zero,
        reference.figure.bone_labels@.len() as int,
        reference.figure.vertex_bones,
        shares@,
        sources@,
        r.figure.vertex_bones,
        value,
        i,
        j,
    );
    let rows = crate::data::obj::rows(r.figure.faces@);
    let corners = crate::utils::mesh::corners(faces@);
    assert(rows =~~= corners);
    assert(r.figure.hierarchy() == reference.figure.hierarchy());
    assert forall|f: int| 0 <= f < faces@.len() implies (#[trigger] r.figure.faces@[f])@ == seq![
        faces@[f]@[0],
        faces@[f]@[1],
        faces@[f]@[2],
    ] by {
        assert(rows[f] == r.figure.faces@[f]@);
        assert(rows[f] =~= corners[f]);
    }
}

} // verus!
