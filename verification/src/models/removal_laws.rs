//! How a hierarchy with bones taken out compares with the whole one.
use vstd::prelude::*;

use crate::data::obj::ObjMesh;
use crate::models::rig::{BoneHierarchy, Bones, RigBoneJson, RigError, WeightsJson};

verus! {

/// At most one bone has no parent.
pub open spec fn one_root(parent: Seq<int>) -> bool {
    forall|i: int, j: int|
        0 <= i < parent.len() && 0 <= j < parent.len() && #[trigger] parent[i] == -1
            && #[trigger] parent[j] == -1 ==> i == j
}

proof fn lemma_next_parent(
    parent: Seq<int>,
    a: Seq<usize>,
    up_a: Seq<i64>,
    b: Seq<usize>,
    up_b: Seq<i64>,
    k: int,
)
    requires
        crate::models::rig::is_depth_first(parent, a, up_a),
        crate::models::rig::is_depth_first(parent, b, up_b),
        0 < k < a.len(),
        k < b.len(),
        forall|j: int| 0 <= j < k ==> a[j] == b[j],
    ensures
        up_a[k] >= up_b[k],
{
    if a[k] == b[k] {
        let p = up_a[k] as int;
        let q = up_b[k] as int;
        assert(parent[a[k] as int] == a[p]);
        assert(parent[b[k] as int] == b[q]);
        assert(a[p] == a[q]);
    } else {
        let q = up_b[k] as int;
        let x = b[k];
        assert(parent[x as int] == b[q]);
        assert(b[q] == a[q]);
        assert(parent[x as int] == a[q]);
        assert(a.contains(x));
        let c = choose|c: int| 0 <= c < a.len() && a[c] == x;
        if c < k {
            assert(b[c] == b[k]);
        }
        assert(c > k);
        assert(parent[a[c] as int] == a[up_a[c] as int]);
        assert(a[up_a[c] as int] == a[q]);
        assert(up_a[c] == q);
        assert(up_a[k] >= q) by {
            assert(0 <= q < k < c < up_a.len());
            assert(up_a[q] == up_a[q]);
        }
    }
}

proof fn lemma_next_sibling(
    parent: Seq<int>,
    a: Seq<usize>,
    up_a: Seq<i64>,
    b: Seq<usize>,
    up_b: Seq<i64>,
    k: int,
)
    requires
        crate::models::rig::is_depth_first(parent, a, up_a),
        crate::models::rig::is_depth_first(parent, b, up_b),
        0 < k < a.len(),
        k < b.len(),
        forall|j: int| 0 <= j < k ==> a[j] == b[j],
        up_a[k] == up_b[k],
    ensures
        a[k] <= b[k],
{
    if a[k] != b[k] {
        let q = up_b[k] as int;
        let x = b[k];
        assert(parent[x as int] == b[q]);
        assert(parent[x as int] == a[q]);
        assert(a.contains(x));
        let c = choose|c: int| 0 <= c < a.len() && a[c] == x;
        if c < k {
            assert(b[c] == b[k]);
        }
        assert(parent[a[c] as int] == a[up_a[c] as int]);
        assert(up_a[c] == q);
        assert(a[k] < a[c]);
    }
}

/// The bones of a rig with one root have one depth-first order.
pub proof fn law_depth_first_unique(
    parent: Seq<int>,
    a: Seq<usize>,
    up_a: Seq<i64>,
    b: Seq<usize>,
    up_b: Seq<i64>,
)
    requires
        one_root(parent),
        crate::models::rig::is_depth_first(parent, a, up_a),
        crate::models::rig::is_depth_first(parent, b, up_b),
    ensures
        a == b,
        up_a == up_b,
{
    let n = if a.len() <= b.len() {
        a.len()
    } else {
        b.len()
    };
    lemma_orders_agree(parent, a, up_a, b, up_b, n);
    lemma_no_longer(parent, a, up_a, b, up_b, n);
    lemma_no_longer(parent, b, up_b, a, up_a, n);
    assert(a =~= b);
    assert(up_a =~= up_b);
}

proof fn lemma_orders_agree(
    parent: Seq<int>,
    a: Seq<usize>,
    up_a: Seq<i64>,
    b: Seq<usize>,
    up_b: Seq<i64>,
    n: nat,
)
    requires
        one_root(parent),
        crate::models::rig::is_depth_first(parent, a, up_a),
        crate::models::rig::is_depth_first(parent, b, up_b),
        n <= a.len(),
        n <= b.len(),
    ensures
        forall|j: int| 0 <= j < n ==> #[trigger] a[j] == b[j],
        forall|j: int| 0 <= j < n ==> #[trigger] up_a[j] == up_b[j],
    decreases n,
{
    if n > 0 {
        lemma_orders_agree(parent, a, up_a, b, up_b, (n - 1) as nat);
        let k = n - 1;
        if k == 0 {
            assert(parent[a[0] as int] == -1 && parent[b[0] as int] == -1);
        } else {
            lemma_next_parent(parent, a, up_a, b, up_b, k);
            lemma_next_parent(parent, b, up_b, a, up_a, k);
            lemma_next_sibling(parent, a, up_a, b, up_b, k);
            lemma_next_sibling(parent, b, up_b, a, up_a, k);
        }
    }
}

/// Of two orders that agree, the first is no longer than the part that they share.
proof fn lemma_no_longer(
    parent: Seq<int>,
    a: Seq<usize>,
    up_a: Seq<i64>,
    b: Seq<usize>,
    up_b: Seq<i64>,
    n: nat,
)
    requires
        crate::models::rig::is_depth_first(parent, a, up_a),
        crate::models::rig::is_depth_first(parent, b, up_b),
        n <= a.len(),
        n <= b.len(),
        n == a.len() || n == b.len(),
        n > 0,
        forall|j: int| 0 <= j < n ==> a[j] == b[j],
    ensures
        n == b.len() ==> a.len() == n,
{
    if n == b.len() && n < a.len() {
        let k = n as int;
        let q = up_a[k] as int;
        assert(parent[a[k] as int] == a[q]);
        assert(parent[a[k] as int] == b[q]);
        assert(b.contains(a[k]));
        let c = choose|c: int| 0 <= c < b.len() && b[c] == a[k];
        assert(a[c] == a[k]);
    }
}

/// A bone that is left keeps its regressors and its roll.
pub proof fn law_removals_keep_bones<R, T>(
    h: Bones<R, T>,
    names: Seq<Seq<char>>,
    n: nat,
    m: Bones<R, T>,
    i: int,
    j: int,
)
    requires
        n <= names.len(),
        crate::models::rig::same_lengths(h),
        crate::models::rig::topological(h.parents),
        h.labels.no_duplicates(),
        crate::models::rig::removals(h, names, n) == Some(m),
        0 <= i < h.labels.len(),
        0 <= j < m.labels.len(),
        h.labels[i] == m.labels[j],
    ensures
        m.heads[j] == h.heads[i],
        m.tails[j] == h.tails[i],
        m.rolls[j] == h.rolls[i],
    decreases n,
{
    crate::models::rig_laws::law_removals_keep_topology(h, names, n, m);
    if n == 0 {
        assert(i == j);
    } else {
        let before = crate::models::rig::removals(h, names, (n - 1) as nat)->0;
        crate::models::rig_laws::law_removals_keep_topology(h, names, (n - 1) as nat, before);
        let idx = crate::names::first_at(before.labels, names[n - 1])->0;
        crate::names::lemma_first_at(before.labels, names[n - 1]);
        let k = if j < idx {
            j
        } else {
            j + 1
        };
        assert(m.labels[j] == before.labels[k]);
        law_removals_keep_bones(h, names, (n - 1) as nat, before, i, k);
    }
}

proof fn lemma_one_root<R>(bones: Seq<(String, RigBoneJson<R>)>)
    requires
        crate::models::rig::root_count(bones, bones.len()) == 1,
        forall|i: int|
            0 <= i < bones.len() ==> !#[trigger] crate::models::rig::is_orphan(bones, i),
    ensures
        one_root(crate::models::rig::parent_of(bones)),
{
    let parent = crate::models::rig::parent_of(bones);
    assert forall|i: int, j: int|
        0 <= i < parent.len() && 0 <= j < parent.len() && #[trigger] parent[i] == -1
            && #[trigger] parent[j] == -1 implies i == j by {
        lemma_root(bones, i);
        lemma_root(bones, j);
        if i < j {
            lemma_two_roots(bones, bones.len(), i, j);
        } else if j < i {
            lemma_two_roots(bones, bones.len(), j, i);
        }
    }
}

proof fn lemma_root<R>(bones: Seq<(String, RigBoneJson<R>)>, i: int)
    requires
        0 <= i < bones.len(),
        !crate::models::rig::is_orphan(bones, i),
        crate::models::rig::parent_of(bones)[i] == -1,
    ensures
        crate::models::rig::is_root(bones, i),
{
    crate::names::lemma_last_at(
        crate::models::rig::bone_names(bones),
        crate::models::rig::parent_name(bones, i),
    );
}

proof fn lemma_two_roots<R>(bones: Seq<(String, RigBoneJson<R>)>, n: nat, i: int, j: int)
    requires
        0 <= i < j < n,
        crate::models::rig::is_root(bones, i),
        crate::models::rig::is_root(bones, j),
    ensures
        crate::models::rig::root_count(bones, n) >= 2,
    decreases n,
{
    if j < n - 1 {
        lemma_two_roots(bones, (n - 1) as nat, i, j);
    } else {
        lemma_some_root(bones, (n - 1) as nat, i);
    }
}

proof fn lemma_some_root<R>(bones: Seq<(String, RigBoneJson<R>)>, n: nat, i: int)
    requires
        0 <= i < n,
        crate::models::rig::is_root(bones, i),
    ensures
        crate::models::rig::root_count(bones, n) >= 1,
    decreases n,
{
    if i < n - 1 {
        lemma_some_root(bones, (n - 1) as nat, i);
    }
}

proof fn lemma_one_start<R, S, T>(
    bones: Seq<(String, RigBoneJson<R>)>,
    mesh: ObjMesh<S>,
    order: Seq<usize>,
    up: Seq<i64>,
    a: Bones<R, T>,
    b: Bones<R, T>,
)
    requires
        crate::models::rig::is_start(a, bones, mesh, order, up),
        crate::models::rig::is_start(b, bones, mesh, order, up),
        a.weights == b.weights,
    ensures
        a == b,
{
    assert forall|k: int| 0 <= k < a.heads.len() implies #[trigger] a.heads[k] == b.heads[k] by {
        let g = crate::models::rig::regressor_at(bones, order, k);
        assert(crate::models::rig::regressor_vertices(g, mesh, a.heads[k]));
        assert(crate::models::rig::regressor_vertices(g, mesh, b.heads[k]));
        lemma_one_regressor(g, mesh, a.heads[k], b.heads[k]);
    }
    assert forall|k: int| 0 <= k < a.tails.len() implies #[trigger] a.tails[k] == b.tails[k] by {
        let g = crate::models::rig::regressor_at(bones, order, order.len() + k);
        assert(crate::models::rig::regressor_vertices(g, mesh, a.tails[k]));
        assert(crate::models::rig::regressor_vertices(g, mesh, b.tails[k]));
        lemma_one_regressor(g, mesh, a.tails[k], b.tails[k]);
    }
    assert(a.labels =~= b.labels);
    assert(a.heads =~= b.heads);
    assert(a.tails =~= b.tails);
}

proof fn lemma_one_regressor<S>(
    regressor: crate::models::rig::CoordinateRegressorJson,
    mesh: ObjMesh<S>,
    a: Seq<u32>,
    b: Seq<u32>,
)
    requires
        crate::models::rig::regressor_vertices(regressor, mesh, a),
        crate::models::rig::regressor_vertices(regressor, mesh, b),
    ensures
        a == b,
{
    if regressor.strategy@ != "VERTEX"@ && regressor.strategy@ == "CUBE"@ {
        let group = mesh.groups@[mesh.group_at(regressor.cube_name->0@)->0].1;
        crate::utils::index::law_ascending_set_unique(a, b, group.face_vertex_indices@);
    }
}

/// A hierarchy with bones taken out, next to the whole one of the same rig: the
/// bones that were not named are left, in their order, each with its regressors and
/// its roll, and below the nearest of its ancestors that is left.
pub proof fn law_named_bones_go<R, S, T>(
    bones: Seq<(String, RigBoneJson<R>)>,
    mesh: ObjMesh<S>,
    names: Seq<Seq<char>>,
    before: WeightsJson<T>,
    after: WeightsJson<T>,
    h: BoneHierarchy<R>,
    whole: BoneHierarchy<R>,
    same: WeightsJson<T>,
    i: int,
    j: int,
)
    requires
        crate::models::rig::bone_names(bones).no_duplicates(),
        crate::models::rig::hierarchy_outcome(bones, mesh, names, before, after, Ok(h)),
        crate::models::rig::hierarchy_outcome(
            bones,
            mesh,
            Seq::empty(),
            before,
            same,
            Ok(whole),
        ),
    ensures
        crate::names::views(h.labels@) == crate::models::rig_laws::kept(
            crate::names::views(whole.labels@),
            names,
        ),
        0 <= i < whole.labels@.len() && 0 <= j < h.labels@.len() && whole.labels@[i]@
            == h.labels@[j]@ ==> {
            &&& h.head_regressors@[j]@ == whole.head_regressors@[i]@
            &&& h.tail_regressors@[j]@ == whole.tail_regressors@[i]@
            &&& h.rolls@[j] == whole.rolls@[i]
            &&& crate::models::rig_laws::parent_label(h.model(after.table()), j)
                == crate::models::rig_laws::nearest(whole.model(same.table()), i, names)
        },
{
    let parent = crate::models::rig::parent_of(bones);
    let (order, up) = choose|order: Seq<usize>, up: Seq<i64>|
        #![trigger crate::models::rig::is_depth_first(parent, order, up)]
        crate::models::rig::is_depth_first(parent, order, up) && crate::models::rig::built(
            bones,
            mesh,
            names,
            before.table(),
            after.table(),
            Ok::<BoneHierarchy<R>, RigError>(h),
            order,
            up,
        );
    let none = Seq::<Seq<char>>::empty();
    let (order2, up2) = choose|order: Seq<usize>, up: Seq<i64>|
        #![trigger crate::models::rig::is_depth_first(parent, order, up)]
        crate::models::rig::is_depth_first(parent, order, up) && crate::models::rig::built(
            bones,
            mesh,
            none,
            before.table(),
            same.table(),
            Ok::<BoneHierarchy<R>, RigError>(whole),
            order,
            up,
        );
    lemma_one_root(bones);
    law_depth_first_unique(parent, order, up, order2, up2);
    let start = choose|start: Bones<R, T>|
        #![trigger crate::models::rig::is_start(start, bones, mesh, order, up)]
        {
            &&& crate::models::rig::is_start(start, bones, mesh, order, up)
            &&& start.weights == before.table()
            &&& crate::models::rig::removals(start, names, names.len()) == Some(
                h.model(after.table()),
            )
        };
    let start2 = choose|start: Bones<R, T>|
        #![trigger crate::models::rig::is_start(start, bones, mesh, order, up)]
        {
            &&& crate::models::rig::is_start(start, bones, mesh, order, up)
            &&& start.weights == before.table()
            &&& crate::models::rig::removals(start, none, none.len()) == Some(
                whole.model(same.table()),
            )
        };
    lemma_one_start(bones, mesh, order, up, start, start2);
    let m = h.model(after.table());
    assert(start == whole.model(same.table()));
    lemma_start_sound(bones, mesh, order, up, start);
    assert(names.take(names.len() as int) =~= names);
    crate::models::rig_laws::law_removals_labels(start, names, names.len(), m);
    crate::models::rig_laws::law_removals_keep_topology(start, names, names.len(), m);
    if 0 <= i < whole.labels@.len() && 0 <= j < h.labels@.len() && whole.labels@[i]@
        == h.labels@[j]@ {
        assert(start.labels[i] == m.labels[j]);
        law_removals_keep_bones(start, names, names.len(), m, i, j);
        crate::models::rig_laws::law_removals_parents(start, names, names.len(), m, i, j);
        assert(m.heads[j] == h.head_regressors@[j]@);
        assert(m.tails[j] == h.tail_regressors@[j]@);
        assert(start.heads[i] == whole.head_regressors@[i]@);
        assert(start.tails[i] == whole.tail_regressors@[i]@);
    }
}

proof fn lemma_start_sound<R, S, T>(
    bones: Seq<(String, RigBoneJson<R>)>,
    mesh: ObjMesh<S>,
    order: Seq<usize>,
    up: Seq<i64>,
    start: Bones<R, T>,
)
    requires
        crate::models::rig::bone_names(bones).no_duplicates(),
        crate::models::rig::is_depth_first(crate::models::rig::parent_of(bones), order, up),
        crate::models::rig::is_start(start, bones, mesh, order, up),
    ensures
        crate::models::rig::topological(start.parents),
        start.labels.no_duplicates(),
{
    let names = crate::models::rig::bone_names(bones);
    assert forall|i: int| 0 <= i < start.parents.len() implies -1 <= #[trigger] start.parents[i]
        < i by {
        assert(start.parents[i] == up[i]);
    }
    assert forall|i: int, j: int|
        0 <= i < start.labels.len() && 0 <= j < start.labels.len() && i != j implies
        start.labels[i] != start.labels[j] by {
        assert(start.labels[i] == names[order[i] as int]);
        assert(start.labels[j] == names[order[j] as int]);
        assert(order[i] != order[j]);
        assert(0 <= order[i] < bones.len() && 0 <= order[j] < bones.len());
    }
}

} // verus!
