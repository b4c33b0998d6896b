//! When a body can be had on another mesh.
use vstd::prelude::*;

use crate::data::obj::ObjMesh;
use crate::models::alternative::{Placement, RetopologyError};
use crate::models::body::Model;
use crate::scalar::{Arithmetic, Bounds, Lengths, Signs};
use crate::utils::mesh::{Nearest, SearchOps};

verus! {

/// In exact arithmetic a point is turned about the first axis by a quarter: what was
/// upwards along the second axis is upwards along the third, and what was towards the
/// viewer along the third is against the second.
pub proof fn law_axes_are_turned<T: Copy, O: Arithmetic<T>>(
    ops: &O,
    points: Vec<[T; 3]>,
    r: Vec<[T; 3]>,
    value: spec_fn(T) -> real,
    i: int,
)
    requires
        crate::scalar::is_exact(ops, value),
        call_ensures(crate::models::alternative::turned::<T, O>, (&points, ops), r),
        0 <= i < points@.len(),
    ensures
        r@.len() == points@.len(),
        value(r@[i]@[0]) == value(points@[i]@[0]),
        value(r@[i]@[1]) == -value(points@[i]@[2]),
        value(r@[i]@[2]) == value(points@[i]@[1]),
{
    assert(r@[i]@[0] == points@[i]@[0]);
}

proof fn lemma_farthest<T, O: Bounds<T>>(
    ops: &O,
    zero: T,
    found: Seq<Nearest<T>>,
    n: nat,
    r: T,
    value: spec_fn(T) -> real,
)
    requires
        crate::scalar::compares(ops, value),
        n <= found.len(),
        crate::models::alternative::is_farthest(ops, zero, found, n, r),
    ensures
        value(zero) <= value(r),
        forall|i: int| 0 <= i < n ==> value((#[trigger] found[i]).distance) <= value(r),
        r == zero || exists|i: int| 0 <= i < n && (#[trigger] found[i]).distance == r,
    decreases n,
{
    if n > 0 {
        let (before, farther) = choose|before: T, farther: bool|
            {
                &&& #[trigger] crate::scalar::says_less(
                    ops,
                    before,
                    found[n - 1].distance,
                    farther,
                )
                &&& crate::models::alternative::is_farthest(
                    ops,
                    zero,
                    found,
                    (n - 1) as nat,
                    before,
                )
                &&& r == if farther {
                    found[n - 1].distance
                } else {
                    before
                }
            };
        lemma_farthest(ops, zero, found, (n - 1) as nat, before, value);
    }
}

/// The meshes are taken from their first groups, and each vertex of the other mesh is
/// found on the triangles of the default one: the placement that the outcome rests on.
/// In exact arithmetic the body is refused for its distance exactly where some vertex is
/// farther from the default mesh than the limit, or where there is no triangle to be near
/// to, and the distance that is told is then that of the farthest vertex.
pub proof fn law_far_meshes_are_refused<T: Copy, O: SearchOps<T> + Lengths<T> + Signs<T>>(
    ops: &O,
    reference: Model<T>,
    default: ObjMesh<T>,
    other: ObjMesh<T>,
    limit: T,
    far: T,
    zero: T,
    one: T,
    r: Result<Model<T>, RetopologyError<T>>,
    value: spec_fn(T) -> real,
) -> (p: Placement<T>)
    requires
        crate::scalar::compares(ops, value),
        value(zero) == 0 as real,
        value(limit) >= 0 as real,
        call_ensures(
            crate::models::alternative::alternative_topology::<T, O>,
            (reference, &default, &other, limit, far, zero, one, ops),
            r,
        ),
        default.groups@.len() > 0,
        other.groups@.len() > 0,
    ensures
        crate::models::alternative::are_turned(ops, default.vertices@, p.from),
        crate::models::alternative::are_turned(ops, other.vertices@, p.to),
        p.found.len() == other.vertices@.len(),
        forall|i: int|
            0 <= i < p.found.len() ==> crate::utils::mesh::is_nearest(
                ops,
                far,
                zero,
                one,
                p.from,
                p.triangles,
                p.to[i],
                #[trigger] p.found[i],
            ),
        (r is Err && r->Err_0 is AltTopologyTooFar) <==> {
            ||| exists|i: int|
                0 <= i < p.found.len() && value((#[trigger] p.found[i]).distance) > value(limit)
            ||| p.triangles.len() == 0 && p.found.len() > 0
        },
        r is Err && r->Err_0 is AltTopologyTooFar ==> forall|i: int|
            0 <= i < p.found.len() ==> value((#[trigger] p.found[i]).distance) <= value(
                r->Err_0->AltTopologyTooFar_0,
            ),
{
    let (p, apart) = choose|p: Placement<T>, apart: bool|
        {
            &&& crate::models::alternative::is_placed(ops, far, zero, one, default, other, p)
            &&& #[trigger] crate::models::alternative::is_too_far(ops, limit, p, apart)
            &&& if apart {
                r == Err::<Model<T>, _>(RetopologyError::AltTopologyTooFar(p.farthest))
            } else if !crate::models::retopology::sources_within(
                crate::models::alternative::nearest_sources(p),
                reference.figure.template_vertices@.len() as int,
            ) {
                r == Err::<Model<T>, _>(RetopologyError::<T>::BeyondReference)
            } else {
                &&& r is Ok
                &&& r->Ok_0.wf()
                &&& crate::models::retopology::is_retopologised(
                    ops,
                    zero,
                    reference,
                    crate::models::alternative::nearest_shares(p),
                    crate::models::alternative::nearest_sources(p),
                    p.faces,
                    r->Ok_0,
                )
            }
        };
    lemma_farthest(ops, zero, p.found, p.found.len(), p.farthest, value);
    let more = choose|more: bool| #[trigger]
        crate::scalar::says_less(ops, limit, p.farthest, more) && apart == (more || (
        p.triangles.len() == 0 && p.found.len() > 0));
    if value(limit) < value(p.farthest) {
        let i = choose|i: int| 0 <= i < p.found.len() && (#[trigger] p.found[i]).distance
            == p.farthest;
        assert(value(p.found[i].distance) > value(limit));
    }
    p
}

} // verus!
