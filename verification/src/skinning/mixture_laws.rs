//! How dual quaternions are mixed, in exact arithmetic.
use vstd::prelude::*;

use crate::skinning::dual::{DualQuaternion, MotionOps};

verus! {

/// The inner product of two motions, over all eight of their components.
pub open spec fn eightfold<T>(
    value: spec_fn(T) -> real,
    a: DualQuaternion<T>,
    b: DualQuaternion<T>,
) -> real {
    value(a.0@[0]) * value(b.0@[0]) + value(a.0@[1]) * value(b.0@[1]) + value(a.0@[2]) * value(
        b.0@[2],
    ) + value(a.0@[3]) * value(b.0@[3]) + (value(a.1@[0]) * value(b.1@[0]) + value(a.1@[1])
        * value(b.1@[1]) + value(a.1@[2]) * value(b.1@[2]) + value(a.1@[3]) * value(b.1@[3]))
}

/// A component of a motion, turned over where the motion points away from the first.
pub open spec fn on_one_side<T>(
    value: spec_fn(T) -> real,
    first: DualQuaternion<T>,
    q: DualQuaternion<T>,
    translation: bool,
    c: int,
) -> real {
    let x = if translation {
        value(q.1@[c])
    } else {
        value(q.0@[c])
    };
    if eightfold(value, q, first) >= 0 as real {
        x
    } else {
        -x
    }
}

proof fn lemma_aligned<T, O: MotionOps<T>>(
    ops: &O,
    first: DualQuaternion<T>,
    raw: DualQuaternion<T>,
    q: DualQuaternion<T>,
    translation: bool,
    c: int,
    value: spec_fn(T) -> real,
)
    requires
        crate::skinning::dual_laws::moves_exactly(ops, value),
        crate::scalar::is_exact(ops, value),
        crate::skinning::is_aligned(ops, first, raw, q),
        0 <= c < 4,
    ensures
        value(crate::skinning::part(q, translation)[c]) == on_one_side(
            value,
            first,
            raw,
            translation,
            c,
        ),
{
    let r = crate::skinning::dual::is_agreement(ops, raw, first, true) && q == raw;
    let d = choose|d: T| #[trigger]
        crate::skinning::dual::is_dual_inner(ops, raw, first, d)
            && crate::skinning::dual::says_not_negative(ops, d, r);
    let (x, y) = choose|x: T, y: T|
        {
            &&& #[trigger] crate::rotation::is_signed_sum(
                ops,
                crate::skinning::dual::four_terms(raw.0@, first.0@),
                x,
            )
            &&& #[trigger] crate::rotation::is_signed_sum(
                ops,
                crate::skinning::dual::four_terms(raw.1@, first.1@),
                y,
            )
            &&& crate::scalar::sum_of(ops, x, y, d)
        };
    crate::skinning::dual_laws::lemma_four(ops, raw.0@, first.0@, x, value);
    crate::skinning::dual_laws::lemma_four(ops, raw.1@, first.1@, y, value);
    assert(value(d) == eightfold(value, raw, first));
    if !r {
        assert(crate::skinning::dual::is_opposite(ops, raw, q));
        assert(crate::scalar::negative_of(ops, raw.0@[c], q.0@[c]));
        assert(crate::scalar::negative_of(ops, raw.1@[c], q.1@[c]));
    }
}

/// In exact arithmetic the motion of a vertex is the sum of those of its bones, each times
/// its weight, after those that point away from the first are turned over.
pub proof fn law_motions_are_mixed<T, O: MotionOps<T>>(
    ops: &O,
    zero: T,
    one: T,
    weights: Seq<T>,
    ms: Seq<[[T; 4]; 4]>,
    p: [T; 3],
    q: [T; 3],
    value: spec_fn(T) -> real,
) -> (found: (Seq<DualQuaternion<T>>, DualQuaternion<T>))
    requires
        crate::skinning::dual_laws::moves_exactly(ops, value),
        crate::scalar::is_exact(ops, value),
        value(zero) == 0 as real,
        weights.len() == ms.len(),
        crate::skinning::is_dual_skinned(ops, zero, one, weights, ms, p, q),
    ensures
        found.0.len() == ms.len(),
        forall|s: int|
            0 <= s < ms.len() ==> crate::skinning::dual::is_dual(
                ops,
                one,
                crate::rotation::rows4(ms[s]),
                #[trigger] found.0[s],
            ),
        forall|c: int|
            0 <= c < 4 ==> value(#[trigger] found.1.0@[c]) == crate::utils::sums::sum(
                |s: int|
                    value(weights[s]) * on_one_side(value, found.0[0], found.0[s], false, c),
                weights.len(),
            ),
        forall|c: int|
            0 <= c < 4 ==> value(#[trigger] found.1.1@[c]) == crate::utils::sums::sum(
                |s: int| value(weights[s]) * on_one_side(value, found.0[0], found.0[s], true, c),
                weights.len(),
            ),
        crate::skinning::dual::is_moved(ops, zero, found.1, p@, q@),
{
    let (raw, aligned, mean) = choose|
        raw: Seq<DualQuaternion<T>>,
        aligned: Seq<DualQuaternion<T>>,
        mean: DualQuaternion<T>,
    |
        {
            &&& #[trigger] crate::skinning::are_duals(ops, one, ms, raw)
            &&& #[trigger] crate::skinning::are_aligned(ops, raw, aligned)
            &&& #[trigger] crate::skinning::is_mean(ops, zero, weights, aligned, mean)
            &&& crate::skinning::dual::is_moved(ops, zero, mean, p@, q@)
        };
    assert forall|c: int| 0 <= c < 4 implies value(#[trigger] mean.0@[c])
        == crate::utils::sums::sum(
        |s: int| value(weights[s]) * on_one_side(value, raw[0], raw[s], false, c),
        weights.len(),
    ) by {
        lemma_component(ops, zero, weights, raw, aligned, mean, false, c, value);
    }
    assert forall|c: int| 0 <= c < 4 implies value(#[trigger] mean.1@[c])
        == crate::utils::sums::sum(
        |s: int| value(weights[s]) * on_one_side(value, raw[0], raw[s], true, c),
        weights.len(),
    ) by {
        lemma_component(ops, zero, weights, raw, aligned, mean, true, c, value);
    }
    (raw, mean)
}

proof fn lemma_component<T, O: MotionOps<T>>(
    ops: &O,
    zero: T,
    weights: Seq<T>,
    raw: Seq<DualQuaternion<T>>,
    aligned: Seq<DualQuaternion<T>>,
    mean: DualQuaternion<T>,
    translation: bool,
    c: int,
    value: spec_fn(T) -> real,
)
    requires
        crate::skinning::dual_laws::moves_exactly(ops, value),
        crate::scalar::is_exact(ops, value),
        value(zero) == 0 as real,
        weights.len() == raw.len(),
        crate::skinning::are_aligned(ops, raw, aligned),
        crate::skinning::is_mean(ops, zero, weights, aligned, mean),
        0 <= c < 4,
    ensures
        value(crate::skinning::part(mean, translation)[c]) == crate::utils::sums::sum(
            |s: int| value(weights[s]) * on_one_side(value, raw[0], raw[s], translation, c),
            weights.len(),
        ),
{
    let terms = crate::skinning::component_terms(weights, aligned, translation, c);
    let r = crate::skinning::part(mean, translation)[c];
    assert(crate::utils::blend::is_blend(ops, zero, terms, r));
    crate::utils::sums::lemma_blend(ops, zero, terms, r, value);
    let f = |s: int| value(terms[s].0) * value(terms[s].1);
    let g = |s: int| value(weights[s]) * on_one_side(value, raw[0], raw[s], translation, c);
    assert forall|s: int| 0 <= s < weights.len() implies #[trigger] f(s) == g(s) by {
        assert(terms[s] == (weights[s], crate::skinning::part(aligned[s], translation)[c]));
        lemma_aligned(ops, raw[0], raw[s], aligned[s], translation, c, value);
    }
    crate::utils::sums::lemma_same_sum(f, g, weights.len());
}

} // verus!
