//! Which faces of a mesh a body keeps, and where they stand.
use vstd::prelude::*;
use vstd::string::*;

use crate::data::obj::ObjMesh;
use crate::models::full_model::{Faces, ModelError};

verus! {

/// How many faces the group of the name has.
pub open spec fn faces_in<S>(mesh: ObjMesh<S>, name: Seq<char>) -> nat {
    match mesh.group_at(name) {
        Some(g) => mesh.groups@[g].1.face_vertex_indices@.len(),
        None => 0,
    }
}

/// Face `f` of the group of the name stands at `at`, with its texture coordinates.
pub open spec fn stands_at<S>(
    mesh: ObjMesh<S>,
    name: Seq<char>,
    f: int,
    faces: Faces,
    at: int,
) -> bool {
    let group = mesh.groups@[mesh.group_at(name)->0].1;
    &&& at < faces.vertices@.len()
    &&& at < faces.texture@.len()
    &&& faces.vertices@[at]@ == group.face_vertex_indices@[f]@
    &&& faces.texture@[at]@ == group.face_texture_coordinate_indices@[f]@
}

proof fn lemma_group<S>(mesh: ObjMesh<S>, name: Seq<char>, f: int)
    requires
        crate::models::full_model::textured(mesh),
    ensures
        crate::models::full_model::group_vertex_rows(mesh, name).len() == faces_in(mesh, name),
        crate::models::full_model::group_texture_rows(mesh, name).len() == faces_in(mesh, name),
        0 <= f < faces_in(mesh, name) ==> {
            let group = mesh.groups@[mesh.group_at(name)->0].1;
            &&& crate::models::full_model::group_vertex_rows(mesh, name)[f]
                == group.face_vertex_indices@[f]@
            &&& crate::models::full_model::group_texture_rows(mesh, name)[f]
                == group.face_texture_coordinate_indices@[f]@
        },
{
    crate::names::lemma_first_at(mesh.names(), name);
    if mesh.group_at(name) is Some {
        let g = mesh.group_at(name)->0;
        assert(0 <= g < mesh.groups@.len());
        assert(mesh.groups@[g].1.face_vertex_indices@.len()
            == mesh.groups@[g].1.face_texture_coordinate_indices@.len());
    }
}

/// The faces of the body come first, then, where they are wanted, those of the left and
/// of the right eye and those of the tongue, each with its texture coordinates, and no
/// others.
pub proof fn law_faces_of_groups<S>(
    mesh: ObjMesh<S>,
    eyes: bool,
    tongue: bool,
    faces: Faces,
    f: int,
)
    requires
        crate::models::full_model::textured(mesh),
        call_ensures(
            crate::models::full_model::collect_body_faces::<S>,
            (&mesh, eyes, tongue),
            Ok::<Faces, ModelError>(faces),
        ),
    ensures
        ({
            let body = faces_in(mesh, "body"@);
            let left = faces_in(mesh, "helper-l-eye"@);
            let right = faces_in(mesh, "helper-r-eye"@);
            let mouth = faces_in(mesh, "helper-tongue"@);
            let both = if eyes {
                left + right
            } else {
                0
            };
            &&& mesh.group_at("body"@) is Some
            &&& faces.vertices@.len() == body + both + if tongue {
                mouth
            } else {
                0
            }
            &&& faces.texture@.len() == faces.vertices@.len()
            &&& 0 <= f < body ==> stands_at(mesh, "body"@, f, faces, f)
            &&& eyes && 0 <= f < left ==> stands_at(mesh, "helper-l-eye"@, f, faces, body + f)
            &&& eyes && 0 <= f < right ==> stands_at(
                mesh,
                "helper-r-eye"@,
                f,
                faces,
                body + left + f,
            )
            &&& tongue && 0 <= f < mouth ==> stands_at(
                mesh,
                "helper-tongue"@,
                f,
                faces,
                body + both + f,
            )
        }),
{
    lemma_group(mesh, "body"@, f);
    lemma_group(mesh, "helper-l-eye"@, f);
    lemma_group(mesh, "helper-r-eye"@, f);
    lemma_group(mesh, "helper-tongue"@, f);
    let (vs, ts) = (faces.vertex_rows(), faces.texture_rows());
    assert(vs.len() == faces.vertices@.len() && ts.len() == faces.texture@.len());
    assert(forall|i: int| 0 <= i < vs.len() ==> #[trigger] vs[i] == faces.vertices@[i]@);
    assert(forall|i: int| 0 <= i < ts.len() ==> #[trigger] ts[i] == faces.texture@[i]@);
    let body = faces_in(mesh, "body"@);
    let left = faces_in(mesh, "helper-l-eye"@);
    let both: nat = if eyes {
        left + faces_in(mesh, "helper-r-eye"@)
    } else {
        0
    };
    if 0 <= f < body {
        assert(vs[f] == faces.vertices@[f]@ && ts[f] == faces.texture@[f]@);
    }
    if eyes && 0 <= f < left {
        assert(vs[body + f] == faces.vertices@[body + f]@);
        assert(ts[body + f] == faces.texture@[body + f]@);
    }
    if eyes && 0 <= f < faces_in(mesh, "helper-r-eye"@) {
        assert(vs[body + left + f] == faces.vertices@[body + left + f]@);
        assert(ts[body + left + f] == faces.texture@[body + left + f]@);
    }
    if tongue && 0 <= f < faces_in(mesh, "helper-tongue"@) {
        assert(vs[body + both + f] == faces.vertices@[body + both + f]@);
        assert(ts[body + both + f] == faces.texture@[body + both + f]@);
    }
}

/// How many of the first `n` are chosen.
pub open spec fn chosen(choice: spec_fn(int) -> bool, n: nat) -> nat
    decreases n,
{
    if n == 0 {
        0
    } else {
        chosen(choice, (n - 1) as nat) + if choice(n - 1) {
            1nat
        } else {
            0
        }
    }
}

proof fn lemma_masked(rows: Seq<Seq<u32>>, mask: Seq<bool>, n: nat, f: int)
    requires
        n <= rows.len(),
        n <= mask.len(),
    ensures
        crate::models::full_model::masked(rows, mask, n).len() == chosen(|i: int| mask[i], n),
        0 <= f < n && mask[f] ==> {
            let at = chosen(|i: int| mask[i], f as nat) as int;
            &&& at < chosen(|i: int| mask[i], n)
            &&& crate::models::full_model::masked(rows, mask, n)[at] == rows[f]
        },
    decreases n,
{
    if n > 0 {
        lemma_masked(rows, mask, (n - 1) as nat, f);
        let choice = |i: int| mask[i];
        assert(choice(n - 1) == mask[n - 1]);
    }
}

/// A face is kept where its flag is set, with its texture coordinates, behind the kept
/// faces that came before it; the others are dropped.
pub proof fn law_flagged_faces_stay(faces: Faces, mask: Vec<bool>, kept: Faces, f: int)
    requires
        faces.vertices@.len() <= faces.texture@.len(),
        call_ensures(
            crate::models::full_model::keep_faces,
            (&faces, &mask),
            Ok::<Faces, ModelError>(kept),
        ),
    ensures
        mask@.len() == faces.vertices@.len(),
        kept.vertices@.len() == chosen(|i: int| mask@[i], mask@.len()),
        kept.texture@.len() == kept.vertices@.len(),
        0 <= f < mask@.len() && mask@[f] ==> {
            let at = chosen(|i: int| mask@[i], f as nat) as int;
            &&& at < kept.vertices@.len()
            &&& kept.vertices@[at]@ == faces.vertices@[f]@
            &&& kept.texture@[at]@ == faces.texture@[f]@
        },
{
    let n = mask@.len();
    lemma_masked(faces.vertex_rows(), mask@, n, f);
    lemma_masked(faces.texture_rows(), mask@, n, f);
    let (vs, ts) = (kept.vertex_rows(), kept.texture_rows());
    assert(vs.len() == kept.vertices@.len() && ts.len() == kept.texture@.len());
    if 0 <= f < n && mask@[f] {
        let at = chosen(|i: int| mask@[i], f as nat) as int;
        assert(vs[at] == kept.vertices@[at]@);
        assert(ts[at] == kept.texture@[at]@);
        assert(faces.vertex_rows()[f] == faces.vertices@[f]@);
        assert(faces.texture_rows()[f] == faces.texture@[f]@);
    }
}

/// No corner of the face is in one of the two regions that are replaced.
pub open spec fn is_outside(face: Seq<u32>) -> bool {
    forall|k: int|
        0 <= k < face.len() ==> {
            let v = #[trigger] face[k];
            v <= 1777 || 1794 <= v <= 8449 || v >= 8466
        }
}

proof fn lemma_undiscarded(faces: Seq<Vec<u32>>, rows: Seq<Seq<u32>>, n: nat, f: int)
    requires
        n <= rows.len(),
        n <= faces.len(),
    ensures
        ({
            let fs = crate::data::obj::rows(faces);
            let all = crate::models::full_model::undiscarded(fs, rows, n);
            &&& all.len() == chosen(|i: int| is_outside(faces[i]@), n)
            &&& 0 <= f < n && is_outside(faces[f]@) ==> {
                let at = chosen(|i: int| is_outside(faces[i]@), f as nat) as int;
                &&& at < all.len()
                &&& all[at] == rows[f]
            }
        }),
    decreases n,
{
    if n > 0 {
        lemma_undiscarded(faces, rows, (n - 1) as nat, f);
        let choice = |i: int| is_outside(faces[i]@);
        let face = crate::data::obj::rows(faces)[n - 1];
        assert(face == faces[n - 1]@);
        assert(choice(n - 1) == is_outside(faces[n - 1]@));
        if crate::models::full_model::face_discarded(face) {
            let k = choose|k: int|
                0 <= k < face.len() && crate::models::full_model::is_discarded(
                    #[trigger] face[k],
                );
            assert(!is_outside(face));
        } else {
            assert forall|k: int| 0 <= k < face.len() implies {
                let v = #[trigger] face[k];
                v <= 1777 || 1794 <= v <= 8449 || v >= 8466
            } by {
                assert(!crate::models::full_model::is_discarded(face[k]));
            }
        }
    }
}

/// The faces outside the replaced regions stay as they are, with their texture
/// coordinates and in their order; fourteen quads follow them, and nothing else.
pub proof fn law_faces_outside_stay(
    faces: Vec<Vec<u32>>,
    texture: Vec<Vec<u32>>,
    vertices: Vec<Vec<u32>>,
    coordinates: Vec<Vec<u32>>,
    f: int,
)
    requires
        faces@.len() <= texture@.len(),
        call_ensures(
            crate::models::full_model::get_edited_mesh_faces,
            (&faces, &texture),
            Ok::<(Vec<Vec<u32>>, Vec<Vec<u32>>), ModelError>((vertices, coordinates)),
        ),
    ensures
        ({
            let kept = chosen(|i: int| is_outside(faces@[i]@), faces@.len());
            &&& vertices@.len() == kept + 14
            &&& coordinates@.len() == kept + 14
            &&& 0 <= f < faces@.len() && is_outside(faces@[f]@) ==> {
                let at = chosen(|i: int| is_outside(faces@[i]@), f as nat) as int;
                &&& at < kept
                &&& vertices@[at]@ == faces@[f]@
                &&& coordinates@[at]@ == texture@[f]@
            }
            &&& 0 <= f < 14 ==> vertices@[kept + f]@.len() == 4 && coordinates@[kept + f]@.len()
                == 4 && is_outside(vertices@[kept + f]@)
        }),
{
    let n = faces@.len();
    let fs = crate::data::obj::rows(faces@);
    let ts = crate::data::obj::rows(texture@);
    lemma_undiscarded(faces@, fs, n, f);
    lemma_undiscarded(faces@, ts, n, f);
    let (vs, cs) = (crate::data::obj::rows(vertices@), crate::data::obj::rows(coordinates@));
    assert(vs.len() == vertices@.len() && cs.len() == coordinates@.len());
    let kept = chosen(|i: int| is_outside(faces@[i]@), n);
    let caps = crate::models::full_model::cap_quads();
    assert(caps.len() == 14);
    if 0 <= f < n && is_outside(faces@[f]@) {
        let at = chosen(|i: int| is_outside(faces@[i]@), f as nat) as int;
        assert(vs[at] == vertices@[at]@ && cs[at] == coordinates@[at]@);
        assert(fs[f] == faces@[f]@ && ts[f] == texture@[f]@);
    }
    if 0 <= f < 14 {
        assert(vs[kept + f] == vertices@[kept + f]@ && cs[kept + f] == coordinates@[kept + f]@);
        assert(vs[kept + f] == caps[f]);
        assert(caps[f].len() == 4);
        assert(is_outside(caps[f]));
    }
}

/// A vertex of a ring of sixteen, counted round.
pub open spec fn round_of(v: int) -> int {
    v % 16
}

/// Quad `q` has an edge from one vertex to another.
pub open spec fn has_edge(quad: Seq<u32>, from: int, to: int) -> bool {
    ||| quad[0] == from && quad[1] == to
    ||| quad[1] == from && quad[2] == to
    ||| quad[2] == from && quad[3] == to
    ||| quad[3] == from && quad[0] == to
}

/// One of the quads from `a` up to `b` has the edge.
pub open spec fn have_edge(quads: Seq<Vec<u32>>, a: int, b: int, from: int, to: int) -> bool {
    exists|q: int| a <= q < b && has_edge((#[trigger] quads[q])@, from, to)
}

/// The place of the quad, counted from zero, that has the edge from vertex `v` of the
/// left ring to the next one.
spec fn left_quad(v: int) -> int {
    if v == 3 || v == 4 || v == 5 {
        0
    } else if v == 2 || v == 6 {
        1
    } else if v == 1 || v == 7 {
        2
    } else if v == 0 || v == 8 {
        3
    } else if v == 15 || v == 9 {
        4
    } else if v == 14 || v == 10 {
        5
    } else {
        6
    }
}

/// The same on the right.
spec fn right_quad(v: int) -> int {
    if v == 3 || v == 4 || v == 5 {
        10
    } else if v == 2 || v == 6 {
        9
    } else if v == 1 || v == 7 {
        8
    } else if v == 0 || v == 8 {
        7
    } else if v == 15 || v == 9 {
        11
    } else if v == 14 || v == 10 {
        12
    } else {
        13
    }
}

/// The quads close the two rings around the replaced regions: round the left one there
/// is an edge from each vertex to the next, round the right one from each vertex to the
/// one before, as in a mirror.
pub proof fn law_caps_close_the_rings(
    faces: Vec<Vec<u32>>,
    texture: Vec<Vec<u32>>,
    vertices: Vec<Vec<u32>>,
    coordinates: Vec<Vec<u32>>,
    v: int,
)
    requires
        faces@.len() <= texture@.len(),
        call_ensures(
            crate::models::full_model::get_edited_mesh_faces,
            (&faces, &texture),
            Ok::<(Vec<Vec<u32>>, Vec<Vec<u32>>), ModelError>((vertices, coordinates)),
        ),
        0 <= v < 16,
    ensures
        ({
            let kept = chosen(|i: int| is_outside(faces@[i]@), faces@.len()) as int;
            let next = round_of(v + 1);
            &&& have_edge(vertices@, kept, kept + 7, 8434 + v, 8434 + next)
            &&& have_edge(vertices@, kept + 7, kept + 14, 1762 + next, 1762 + v)
        }),
{
    let n = faces@.len();
    let fs = crate::data::obj::rows(faces@);
    lemma_undiscarded(faces@, fs, n, 0);
    let vs = crate::data::obj::rows(vertices@);
    assert(vs.len() == vertices@.len());
    let kept = chosen(|i: int| is_outside(faces@[i]@), n);
    let caps = crate::models::full_model::cap_quads();
    let next = round_of(v + 1);
    let (l, r) = (left_quad(v), right_quad(v));
    assert(v == 15 ==> next == 0);
    assert(v < 15 ==> next == v + 1);
    assert(has_edge(caps[l], 8434 + v, 8434 + next));
    assert(has_edge(caps[r], 1762 + next, 1762 + v));
    assert(vs[kept + l] == caps[l] && vs[kept + r] == caps[r]);
    assert(vs[kept + l] == vertices@[kept + l]@ && vs[kept + r] == vertices@[kept + r]@);
}

} // verus!
