//! Bone hierarchies and skinning weights.
//!
//! A rig lists bones by name. Each bone has a regressor for its head and its
//! tail (the vertices whose mean is the joint), a roll angle and the name of
//! its parent, which is empty for the root.
use vstd::prelude::*;
use vstd::string::*;

use crate::data::obj::ObjMesh;
use crate::names::{find_first, same};
use crate::utils::index::ascending_set;
use crate::scalar::{Division, Signs};
use crate::utils::shares::normalised;

verus! {

/// Why a rig cannot be used.
#[derive(Debug, Clone)]
pub enum RigError {
    BadRootCount { found: usize },
    UnknownStrategy(String),
    MissingGroup(String),
    UnknownParent(String),
    UnknownBoneToRemove(String),
}

/// Which vertices are averaged for a joint.
#[derive(Debug, Clone)]
pub struct CoordinateRegressorJson {
    pub strategy: String,
    pub cube_name: Option<String>,
    pub vertex_index: Option<u32>,
    pub vertex_indices: Option<Vec<u32>>,
}

/// A bone of a rig, with a roll angle of type `R`.
#[derive(Debug, Clone)]
pub struct RigBoneJson<R> {
    pub head: CoordinateRegressorJson,
    pub tail: CoordinateRegressorJson,
    pub roll: R,
    pub parent: String,
}

// ---------------------------------------------------------------------------
// The tree of bones
// ---------------------------------------------------------------------------

pub open spec fn bone_names<R>(bones: Seq<(String, RigBoneJson<R>)>) -> Seq<Seq<char>> {
    bones.map_values(|b: (String, RigBoneJson<R>)| b.0@)
}

pub open spec fn parent_name<R>(bones: Seq<(String, RigBoneJson<R>)>, i: int) -> Seq<char> {
    bones[i].1.parent@
}

pub open spec fn is_root<R>(bones: Seq<(String, RigBoneJson<R>)>, i: int) -> bool {
    parent_name(bones, i).len() == 0
}

/// The number of roots among the first `n` bones.
pub open spec fn root_count<R>(bones: Seq<(String, RigBoneJson<R>)>, n: nat) -> nat
    decreases n,
{
    if n == 0 {
        0
    } else {
        root_count(bones, (n - 1) as nat) + if is_root(bones, n - 1) {
            1nat
        } else {
            0nat
        }
    }
}

/// Bone `i` names a parent that the rig does not hold.
pub open spec fn is_orphan<R>(bones: Seq<(String, RigBoneJson<R>)>, i: int) -> bool {
    !is_root(bones, i) && crate::names::last_at(bone_names(bones), parent_name(bones, i)) is None
}

/// The position of each bone's parent in the rig; negative for a root.
pub open spec fn parent_of<R>(bones: Seq<(String, RigBoneJson<R>)>) -> Seq<int> {
    Seq::new(
        bones.len(),
        |i: int|
            if is_root(bones, i) {
                -1
            } else {
                match crate::names::last_at(bone_names(bones), parent_name(bones, i)) {
                    Some(p) => p,
                    None => -1,
                }
            },
    )
}

/// `order` lists, depth first, the root and all that descends from it, and
/// `up` holds the position in `order` of each one's parent:
/// a parent stands before its children; between a parent and one of its
/// children stand only descendants of that parent; siblings keep the order in
/// which `parent` lists them.
pub open spec fn is_depth_first(parent: Seq<int>, order: Seq<usize>, up: Seq<i64>) -> bool {
    &&& order.len() > 0 && up.len() == order.len()
    &&& up[0] == -1 && 0 <= order[0] < parent.len() && parent[order[0] as int] == -1
    &&& forall|k: int|
        #![trigger up[k]]
        #![trigger order[k]]
        0 < k < order.len() ==> 0 <= order[k] < parent.len() && 0 <= up[k] < k
            && parent[order[k] as int] == order[up[k] as int]
    &&& order.no_duplicates()
    &&& forall|i: int, k: int|
        0 <= i < parent.len() && 0 <= k < order.len() && #[trigger] parent[i]
            == #[trigger] order[k] ==> order.contains(i as usize)
    &&& subtrees_contiguous(up)
    &&& forall|a: int, b: int|
        0 <= a < b < order.len() && #[trigger] up[a] == #[trigger] up[b] ==> order[a] < order[b]
}

/// Between a bone and one of its children stand only its descendants.
pub open spec fn subtrees_contiguous(up: Seq<i64>) -> bool {
    forall|a: int, b: int, c: int|
        #![trigger up[b], up[c], up[a]]
        0 <= a < b < c < up.len() && up[c] == a ==> up[b] >= a
}

/// The state of the depth-first walk: `order` is listed, `stack` is to be
/// listed, its last element first; `waiting` holds the position of the parent
/// of each element of `stack`.
spec fn walk_ok(
    parent: Seq<int>,
    order: Seq<usize>,
    up: Seq<i64>,
    stack: Seq<usize>,
    waiting: Seq<usize>,
) -> bool {
    &&& order.len() > 0 && up.len() == order.len() && waiting.len() == stack.len()
    &&& up[0] == -1 && 0 <= order[0] < parent.len() && parent[order[0] as int] == -1
    &&& forall|k: int|
        #![trigger up[k]]
        #![trigger order[k]]
        0 < k < order.len() ==> 0 <= order[k] < parent.len() && 0 <= up[k] < k
            && parent[order[k] as int] == order[up[k] as int]
    &&& forall|s: int|
        #![trigger stack[s]]
        #![trigger waiting[s]]
        0 <= s < stack.len() ==> 0 <= stack[s] < parent.len() && waiting[s] < order.len()
            && parent[stack[s] as int] == order[waiting[s] as int]
    &&& order.no_duplicates()
    &&& stack.no_duplicates()
    &&& forall|k: int, s: int|
        0 <= k < order.len() && 0 <= s < stack.len() ==> #[trigger] order[k]
            != #[trigger] stack[s]
    &&& forall|i: int, k: int|
        0 <= i < parent.len() && 0 <= k < order.len() && #[trigger] parent[i]
            == #[trigger] order[k] ==> order.contains(i as usize) || stack.contains(i as usize)
    &&& forall|s: int, t: int|
        0 <= s < t < stack.len() ==> #[trigger] waiting[s] <= #[trigger] waiting[t]
    &&& subtrees_contiguous(up)
    &&& forall|s: int, b: int|
        0 <= s < stack.len() && waiting[s] < b < order.len() ==> #[trigger] up[b]
            >= #[trigger] waiting[s]
    &&& forall|a: int, b: int|
        0 <= a < b < order.len() && #[trigger] up[a] == #[trigger] up[b] ==> order[a] < order[b]
    &&& forall|k: int, s: int|
        0 <= k < order.len() && 0 <= s < stack.len() && #[trigger] up[k]
            == #[trigger] waiting[s] ==> order[k] < stack[s]
    &&& forall|s: int, t: int|
        0 <= s < t < stack.len() && #[trigger] waiting[s] == #[trigger] waiting[t] ==> stack[s]
            > stack[t]
}

/// `list` holds the children of `p`, in order.
spec fn are_children(parent: Seq<int>, p: int, list: Seq<usize>) -> bool {
    &&& forall|j: int|
        0 <= j < list.len() ==> 0 <= #[trigger] list[j] < parent.len() && parent[list[j] as int]
            == p
    &&& forall|i: int| 0 <= i < parent.len() && #[trigger] parent[i] == p ==> list.contains(
        i as usize,
    )
    &&& forall|j: int, k: int| 0 <= j < k < list.len() ==> #[trigger] list[j] < #[trigger] list[k]
}

/// The walk steps on: the last of `stack` is listed and its children put on
/// the stack, the first child last.
proof fn lemma_walk_step(
    parent: Seq<int>,
    order: Seq<usize>,
    up: Seq<i64>,
    stack: Seq<usize>,
    waiting: Seq<usize>,
    list: Seq<usize>,
    stack2: Seq<usize>,
    waiting2: Seq<usize>,
)
    requires
        walk_ok(parent, order, up, stack, waiting),
        stack.len() > 0,
        order.len() <= i64::MAX,
        are_children(parent, stack.last() as int, list),
        stack2.len() == stack.len() - 1 + list.len(),
        waiting2.len() == stack2.len(),
        forall|s: int|
            0 <= s < stack.len() - 1 ==> #[trigger] stack2[s] == stack[s] && waiting2[s]
                == waiting[s],
        forall|j: int|
            0 <= j < list.len() ==> #[trigger] stack2[stack.len() - 1 + j] == list[list.len() - 1
                - j],
        forall|s: int|
            stack.len() - 1 <= s < stack2.len() ==> #[trigger] waiting2[s] == order.len(),
    ensures
        walk_ok(
            parent,
            order.push(stack.last()),
            up.push(waiting.last() as i64),
            stack2,
            waiting2,
        ),
{
    let node = stack.last();
    let base = stack.len() - 1;
    let n = order.len() as int;
    let order2 = order.push(node);
    let up2 = up.push(waiting.last() as i64);
    assert(stack[base] == node && waiting[base] == waiting.last());
    assert forall|s: int| base <= s < stack2.len() implies #[trigger] stack2[s] == list[list.len()
        - 1 - (s - base)] by {
        assert(stack2[base + (s - base)] == list[list.len() - 1 - (s - base)]);
    }
    // A child of the node is neither listed nor waiting.
    assert forall|j: int, k: int| 0 <= j < list.len() && 0 <= k < order2.len() implies list[j]
        != order2[k] by {
        assert(parent[list[j] as int] == node);
        if list[j] == order2[k] {
            if k == n {
                assert(parent[node as int] == order[waiting[base] as int]);
                assert(order[waiting[base] as int] != stack[base]);
            } else if k > 0 {
                assert(parent[order[k] as int] == order[up[k] as int]);
                assert(order[up[k] as int] != stack[base]);
            }
        }
    }
    assert forall|j: int, s: int| 0 <= j < list.len() && 0 <= s < stack.len() implies list[j]
        != stack[s] by {
        assert(parent[list[j] as int] == node);
        if list[j] == stack[s] {
            assert(parent[stack[s] as int] == order[waiting[s] as int]);
            assert(order[waiting[s] as int] != stack[base]);
        }
    }
    assert forall|k: int|
        #![trigger up2[k]]
        #![trigger order2[k]]
        0 < k < order2.len() implies 0 <= order2[k] < parent.len() && 0 <= up2[k] < k
        && parent[order2[k] as int] == order2[up2[k] as int] by {
        if k < n {
            assert(order2[k] == order[k] && up2[k] == up[k]);
        }
    }
    assert forall|s: int|
        #![trigger stack2[s]]
        #![trigger waiting2[s]]
        0 <= s < stack2.len() implies 0 <= stack2[s] < parent.len() && waiting2[s] < order2.len()
        && parent[stack2[s] as int] == order2[waiting2[s] as int] by {
        if s < base {
            assert(stack2[s] == stack[s]);
        } else {
            assert(waiting2[s] == n);
        }
    }
    assert(order2.no_duplicates()) by {
        assert forall|i: int, j: int|
            0 <= i < order2.len() && 0 <= j < order2.len() && i != j implies order2[i]
            != order2[j] by {
            if i == n {
                assert(order[j] != stack[base]);
            } else if j == n {
                assert(order[i] != stack[base]);
            }
        }
    }
    assert(stack2.no_duplicates()) by {
        assert forall|i: int, j: int| 0 <= i < j < stack2.len() implies stack2[i] != stack2[j] by {
            if j < base {
                assert(stack2[i] == stack[i] && stack2[j] == stack[j]);
            } else if i < base {
                assert(stack2[i] == stack[i]);
                assert(stack2[j] == list[list.len() - 1 - (j - base)]);
            } else {
                assert(stack2[i] == list[list.len() - 1 - (i - base)]);
                assert(stack2[j] == list[list.len() - 1 - (j - base)]);
            }
        }
    }
    assert forall|k: int, s: int| 0 <= k < order2.len() && 0 <= s < stack2.len() implies
        #[trigger] order2[k] != #[trigger] stack2[s] by {
        if s < base {
            assert(stack2[s] == stack[s]);
            if k < n {
                assert(order2[k] == order[k]);
            } else {
                assert(stack[s] != stack[base]);
            }
        } else {
            assert(stack2[s] == list[list.len() - 1 - (s - base)]);
        }
    }
    assert forall|i: int, k: int|
        0 <= i < parent.len() && 0 <= k < order2.len() && #[trigger] parent[i]
            == #[trigger] order2[k] implies order2.contains(i as usize) || stack2.contains(
        i as usize,
    ) by {
        if k == n {
            assert(list.contains(i as usize));
            let j = choose|j: int| 0 <= j < list.len() && list[j] == i as usize;
            let s = base + (list.len() - 1 - j);
            assert(stack2[s] == list[list.len() - 1 - (s - base)]);
            assert(stack2[s] == i as usize);
        } else {
            assert(parent[i] == order[k]);
            if order.contains(i as usize) {
                let x = choose|x: int| 0 <= x < order.len() && order[x] == i as usize;
                assert(order2[x] == i as usize);
            } else {
                let x = choose|x: int| 0 <= x < stack.len() && stack[x] == i as usize;
                if x == base {
                    assert(order2[n] == i as usize);
                } else {
                    assert(stack2[x] == i as usize);
                }
            }
        }
    }
    assert forall|s: int, t: int| 0 <= s < t < stack2.len() implies #[trigger] waiting2[s]
        <= #[trigger] waiting2[t] by {
        if s < base {
            assert(stack2[s] == stack[s]);
            assert(waiting[s] < order.len());
            if t < base {
                assert(stack2[t] == stack[t]);
            }
        }
    }
    assert(subtrees_contiguous(up2)) by {
        assert forall|a: int, b: int, c: int|
            #![trigger up2[b], up2[c], up2[a]]
            0 <= a < b < c < up2.len() && up2[c] == a implies up2[b] >= a by {
            assert(up2[b] == up[b]);
            if c == n {
                assert(up[b] >= waiting[base]);
            } else {
                assert(up2[c] == up[c] && up2[a] == up[a]);
            }
        }
    }
    assert forall|s: int, b: int|
        0 <= s < stack2.len() && waiting2[s] < b < order2.len() implies #[trigger] up2[b]
        >= #[trigger] waiting2[s] by {
        if s < base {
            assert(stack2[s] == stack[s]);
            if b < n {
                assert(up2[b] == up[b]);
                assert(up[b] >= waiting[s]);
            } else {
                assert(waiting[s] <= waiting[base]);
            }
        }
    }
    assert forall|a: int, b: int|
        0 <= a < b < order2.len() && #[trigger] up2[a] == #[trigger] up2[b] implies order2[a]
        < order2[b] by {
        assert(up2[a] == up[a]);
        if b == n {
            assert(up[a] == waiting[base]);
            assert(order[a] < stack[base]);
        } else {
            assert(up2[b] == up[b]);
        }
    }
    assert forall|k: int, s: int|
        0 <= k < order2.len() && 0 <= s < stack2.len() && #[trigger] up2[k]
            == #[trigger] waiting2[s] implies order2[k] < stack2[s] by {
        if s < base {
            assert(stack2[s] == stack[s]);
            if k < n {
                assert(up2[k] == up[k]);
                assert(up[k] == waiting[s]);
            } else {
                assert(waiting[s] == waiting[base]);
                assert(stack[s] > stack[base]);
            }
        } else {
            assert(waiting2[s] == n);
            if 0 < k < n {
                assert(up[k] < k);
            }
        }
    }
    assert forall|s: int, t: int|
        0 <= s < t < stack2.len() && #[trigger] waiting2[s] == #[trigger] waiting2[t] implies
        stack2[s] > stack2[t] by {
        if t < base {
            assert(stack2[s] == stack[s] && stack2[t] == stack[t]);
            assert(waiting[s] == waiting[t]);
        } else if s < base {
            assert(stack2[s] == stack[s]);
            assert(waiting[s] < order.len());
        } else {
            assert(stack2[s] == list[list.len() - 1 - (s - base)]);
            assert(stack2[t] == list[list.len() - 1 - (t - base)]);
        }
    }
}

spec fn children_upto(parent: Seq<int>, p: int, list: Seq<usize>, n: int) -> bool {
    &&& forall|j: int|
        0 <= j < list.len() ==> 0 <= #[trigger] list[j] < n && parent[list[j] as int] == p
    &&& forall|i: int| 0 <= i < n && #[trigger] parent[i] == p ==> list.contains(i as usize)
    &&& forall|j: int, k: int| 0 <= j < k < list.len() ==> #[trigger] list[j] < #[trigger] list[k]
}

proof fn lemma_child_added(parent: Seq<int>, p: int, list: Seq<usize>, n: int)
    requires
        0 <= n < parent.len(),
        n <= usize::MAX,
        children_upto(parent, p, list, n),
    ensures
        parent[n] == p ==> children_upto(parent, p, list.push(n as usize), n + 1),
        parent[n] != p ==> children_upto(parent, p, list, n + 1),
{
    let longer = list.push(n as usize);
    assert forall|i: int| 0 <= i < n + 1 && #[trigger] parent[i] == p && parent[n] == p implies
        longer.contains(i as usize) by {
        if i < n {
            let j = choose|j: int| 0 <= j < list.len() && list[j] == i as usize;
            assert(longer[j] == i as usize);
        } else {
            assert(longer[list.len() as int] == n as usize);
        }
    }
}

fn position_of<R>(bones: &Vec<(String, RigBoneJson<R>)>, name: &str) -> (r: Option<usize>)
    ensures
        match r {
            Some(i) => crate::names::last_at(bone_names(bones@), name@) == Some(i as int) && i
                < bones@.len(),
            None => crate::names::last_at(bone_names(bones@), name@) is None,
        },
{
    let ghost all = bone_names(bones@);
    let mut i: usize = bones.len();
    while i > 0
        invariant
            i <= bones@.len(),
            all == bone_names(bones@),
            forall|j: int| i <= j < bones@.len() ==> all[j] != name@,
        decreases i,
    {
        i = i - 1;
        assert(all[i as int] == bones@[i as int].0@);
        if same(bones[i].0.as_str(), name) {
            proof {
                crate::names::lemma_last_at_is(all, name@, i as int);
            }
            return Some(i);
        }
    }
    proof {
        crate::names::lemma_last_at(all, name@);
    }
    None
}

/// The children of every bone, each list in the order of the rig.
fn children_lists<R>(bones: &Vec<(String, RigBoneJson<R>)>) -> (r: Result<
    Vec<Vec<usize>>,
    RigError,
>)
    ensures
        match r {
            Ok(lists) => {
                &&& forall|i: int| 0 <= i < bones@.len() ==> !#[trigger] is_orphan(bones@, i)
                &&& lists@.len() == bones@.len()
                &&& forall|p: int|
                    0 <= p < bones@.len() ==> are_children(
                        parent_of(bones@),
                        p,
                        (#[trigger] lists@[p])@,
                    )
            },
            Err(e) => {
                &&& e is UnknownParent
                &&& exists|i: int|
                    {
                        &&& 0 <= i < bones@.len()
                        &&& #[trigger] is_orphan(bones@, i)
                        &&& e->UnknownParent_0@ == parent_name(bones@, i)
                        &&& forall|j: int| 0 <= j < i ==> !#[trigger] is_orphan(bones@, j)
                    }
            },
        },
{
    let n: usize = bones.len();
    let ghost parent = parent_of(bones@);
    let mut lists: Vec<Vec<usize>> = Vec::new();
    for i in 0..n
        invariant
            lists@.len() == i,
            forall|p: int| 0 <= p < i ==> (#[trigger] lists@[p])@.len() == 0,
    {
        lists.push(Vec::new());
    }
    let mut i: usize = 0;
    while i < n
        invariant
            i <= n,
            n == bones@.len(),
            lists@.len() == n,
            parent == parent_of(bones@),
            forall|j: int| 0 <= j < i ==> !#[trigger] is_orphan(bones@, j),
            forall|p: int|
                0 <= p < n ==> children_upto(parent, p, (#[trigger] lists@[p])@, i as int),
        decreases n - i,
    {
        let ghost before = lists@;
        if bones[i].1.parent.as_str().is_empty() {
            proof {
                assert(is_root(bones@, i as int));
                assert(!is_orphan(bones@, i as int));
                assert forall|p: int| 0 <= p < n implies children_upto(
                    parent,
                    p,
                    (#[trigger] lists@[p])@,
                    i + 1,
                ) by {
                    lemma_child_added(parent, p, lists@[p]@, i as int);
                }
            }
        } else {
            assert(!is_root(bones@, i as int));
            match position_of(bones, bones[i].1.parent.as_str()) {
                Some(q) => {
                    lists[q].push(i);
                    proof {
                        assert(!is_orphan(bones@, i as int));
                        assert(parent[i as int] == q);
                        assert forall|p: int| 0 <= p < n implies children_upto(
                            parent,
                            p,
                            (#[trigger] lists@[p])@,
                            i + 1,
                        ) by {
                            lemma_child_added(parent, p, before[p]@, i as int);
                            if p == q {
                                assert(lists@[p]@ == before[p]@.push(i));
                            } else {
                                assert(lists@[p] == before[p]);
                            }
                        }
                    }
                },
                None => {
                    assert(is_orphan(bones@, i as int));
                    return Err(RigError::UnknownParent(bones[i].1.parent.clone()));
                },
            }
        }
        i = i + 1;
    }
    proof {
        assert forall|p: int| 0 <= p < bones@.len() implies are_children(
            parent,
            p,
            (#[trigger] lists@[p])@,
        ) by {
            assert(children_upto(parent, p, lists@[p]@, n as int));
        }
    }
    Ok(lists)
}

/// The bones that descend from the unique root, depth first, with the
/// position of each one's parent in that order. Children are visited in the
/// order of the rig.
pub fn dfs_topological_order<R>(bones: &Vec<(String, RigBoneJson<R>)>) -> (r: Result<
    (Vec<usize>, Vec<i64>),
    RigError,
>)
    requires
        bones@.len() <= i64::MAX,
    ensures
        match r {
            Ok((order, up)) => {
                &&& root_count(bones@, bones@.len()) == 1
                &&& forall|i: int| 0 <= i < bones@.len() ==> !#[trigger] is_orphan(bones@, i)
                &&& is_depth_first(parent_of(bones@), order@, up@)
            },
            Err(RigError::BadRootCount { found }) => found == root_count(bones@, bones@.len())
                && found != 1,
            Err(RigError::UnknownParent(name)) => root_count(bones@, bones@.len()) == 1
                && exists|i: int|
                {
                    &&& 0 <= i < bones@.len()
                    &&& #[trigger] is_orphan(bones@, i)
                    &&& name@ == parent_name(bones@, i)
                    &&& forall|j: int| 0 <= j < i ==> !#[trigger] is_orphan(bones@, j)
                },
            Err(_) => false,
        },
{
    let n: usize = bones.len();
    let ghost parent = parent_of(bones@);
    let mut roots: usize = 0;
    let mut root: usize = 0;
    for i in 0..n
        invariant
            n == bones@.len(),
            roots == root_count(bones@, i as nat),
            roots <= i,
            roots > 0 ==> root < i && is_root(bones@, root as int),
    {
        if bones[i].1.parent.as_str().is_empty() {
            assert(is_root(bones@, i as int));
            roots = roots + 1;
            root = i;
        }
    }
    if roots != 1 {
        return Err(RigError::BadRootCount { found: roots });
    }
    let lists = match children_lists(bones) {
        Ok(lists) => lists,
        Err(e) => {
            return Err(e);
        },
    };
    let mut order: Vec<usize> = Vec::new();
    let mut up: Vec<i64> = Vec::new();
    order.push(root);
    up.push(-1);
    let mut stack: Vec<usize> = Vec::new();
    let mut waiting: Vec<usize> = Vec::new();
    let first: &Vec<usize> = &lists[root];
    let mut c: usize = first.len();
    while c > 0
        invariant
            c <= first@.len(),
            stack@.len() == first@.len() - c,
            waiting@.len() == stack@.len(),
            forall|j: int| 0 <= j < stack@.len() ==> #[trigger] stack@[j] == first@[first@.len() - 1 - j],
            forall|j: int| 0 <= j < stack@.len() ==> #[trigger] waiting@[j] == 0,
        decreases c,
    {
        c = c - 1;
        stack.push(first[c]);
        waiting.push(0);
    }
    proof {
        let list = first@;
        assert(are_children(parent, root as int, list));
        assert forall|i: int, j: int| 0 <= i < j < stack@.len() implies stack@[i] != stack@[j] by {
            assert(list[list.len() - 1 - j] < list[list.len() - 1 - i]);
        }
        assert forall|i: int, k: int|
            0 <= i < parent.len() && 0 <= k < order@.len() && #[trigger] parent[i]
                == #[trigger] order@[k] implies order@.contains(i as usize) || stack@.contains(
            i as usize,
        ) by {
            let j = choose|j: int| 0 <= j < list.len() && list[j] == i as usize;
            assert(stack@[list.len() - 1 - j] == i as usize);
        }
        assert(walk_ok(parent, order@, up@, stack@, waiting@));
    }
    while stack.len() > 0
        invariant
            n == bones@.len(),
            n <= i64::MAX,
            parent.len() == n,
            lists@.len() == n,
            walk_ok(parent, order@, up@, stack@, waiting@),
            order@.len() <= n,
            forall|p: int|
                0 <= p < n ==> are_children(parent, p, (#[trigger] lists@[p])@),
        decreases n - order@.len(),
    {
        let ghost stack0 = stack@;
        let ghost waiting0 = waiting@;
        let ghost order0 = order@;
        let ghost up0 = up@;
        proof {
            let all = order0.push(stack0.last());
            assert forall|i: int, j: int|
                0 <= i < all.len() && 0 <= j < all.len() && i != j implies all[i] != all[j] by {
                if i == order0.len() {
                    assert(order0[j] != stack0[stack0.len() - 1]);
                } else if j == order0.len() {
                    assert(order0[i] != stack0[stack0.len() - 1]);
                }
            }
            assert forall|k: int| 0 <= k < all.len() implies 0 <= #[trigger] all[k] < n by {
                if k < order0.len() {
                    assert(all[k] == order0[k]);
                } else {
                    assert(all[k] == stack0[stack0.len() - 1]);
                }
            }
            crate::utils::index::lemma_distinct_bounded(all, n as nat);
            assert(stack0[stack0.len() - 1] < parent.len());
        }
        let top: usize = stack.len() - 1;
        let node: usize = stack[top];
        let above: usize = waiting[top];
        let here: usize = order.len();
        stack.pop();
        waiting.pop();
        order.push(node);
        up.push(above as i64);
        let list: &Vec<usize> = &lists[node];
        let mut c: usize = list.len();
        while c > 0
            invariant
                c <= list@.len(),
                top + list@.len() - c == stack@.len(),
                top == stack0.len() - 1,
                waiting0.len() == stack0.len(),
                waiting@.len() == stack@.len(),
                forall|s: int|
                    0 <= s < top ==> #[trigger] stack@[s] == stack0[s] && waiting@[s]
                        == waiting0[s],
                forall|j: int|
                    0 <= j < list@.len() - c ==> #[trigger] stack@[top + j] == list@[list@.len() - 1
                        - j],
                forall|s: int| top <= s < stack@.len() ==> #[trigger] waiting@[s] == here,
            decreases c,
        {
            c = c - 1;
            stack.push(list[c]);
            waiting.push(here);
        }
        proof {
            lemma_walk_step(
                parent,
                order0,
                up0,
                stack0,
                waiting0,
                list@,
                stack@,
                waiting@,
            );
        }
    }
    proof {
        assert forall|i: int, k: int|
            0 <= i < parent.len() && 0 <= k < order@.len() && #[trigger] parent[i]
                == #[trigger] order@[k] implies order@.contains(i as usize) by {
            assert(!stack@.contains(i as usize));
        }
    }
    Ok((order, up))
}

// ---------------------------------------------------------------------------
// Regressors
// ---------------------------------------------------------------------------

/// What is wrong with a regressor.
pub enum RegressorFault {
    UnknownStrategy(Seq<char>),
    MissingGroup(Seq<char>),
}

/// What is wrong with `regressor` on `mesh`, if anything.
pub open spec fn regressor_fault<S>(
    regressor: CoordinateRegressorJson,
    mesh: ObjMesh<S>,
) -> Option<RegressorFault> {
    let strategy = regressor.strategy@;
    if strategy == "VERTEX"@ {
        None
    } else if strategy == "CUBE"@ {
        match regressor.cube_name {
            None => Some(RegressorFault::UnknownStrategy("CUBE missing cube_name"@)),
            Some(name) => match mesh.group_at(name@) {
                None => Some(RegressorFault::MissingGroup(name@)),
                Some(_) => None,
            },
        }
    } else if strategy == "MEAN"@ {
        None
    } else {
        Some(RegressorFault::UnknownStrategy(strategy))
    }
}

/// `r` is the list of vertices whose mean the joint is: one vertex, the
/// vertices of a group in ascending order, or a given list.
pub open spec fn regressor_vertices<S>(
    regressor: CoordinateRegressorJson,
    mesh: ObjMesh<S>,
    r: Seq<u32>,
) -> bool {
    let strategy = regressor.strategy@;
    if strategy == "VERTEX"@ {
        r == seq![
            match regressor.vertex_index {
                Some(v) => v,
                None => 0,
            },
        ]
    } else if strategy == "CUBE"@ {
        let group = mesh.groups@[mesh.group_at(regressor.cube_name->0@)->0].1;
        crate::utils::index::is_ascending_set(r, group.face_vertex_indices@)
    } else {
        r == match regressor.vertex_indices {
            Some(v) => v@,
            None => Seq::<u32>::empty(),
        }
    }
}

/// `e` reports the fault `f`.
pub open spec fn reports(e: RigError, f: RegressorFault) -> bool {
    match f {
        RegressorFault::UnknownStrategy(name) => e is UnknownStrategy && e->UnknownStrategy_0@
            == name,
        RegressorFault::MissingGroup(name) => e is MissingGroup && e->MissingGroup_0@ == name,
    }
}

/// The vertices whose mean is the joint that `regressor` describes.
pub fn resolve_regressor<S>(regressor: &CoordinateRegressorJson, mesh: &ObjMesh<S>) -> (r: Result<
    Vec<u32>,
    RigError,
>)
    ensures
        match regressor_fault(*regressor, *mesh) {
            None => r is Ok && regressor_vertices(*regressor, *mesh, r->Ok_0@),
            Some(f) => r is Err && reports(r->Err_0, f),
        },
{
    let strategy = regressor.strategy.as_str();
    if same(strategy, "VERTEX") {
        let v: u32 = match regressor.vertex_index {
            Some(v) => v,
            None => 0,
        };
        let r: Vec<u32> = vec![v];
        assert(r@ == seq![v]);
        return Ok(r);
    }
    if same(strategy, "CUBE") {
        return match &regressor.cube_name {
            None => Err(RigError::UnknownStrategy("CUBE missing cube_name".to_owned())),
            Some(name) => match mesh.group(name.as_str()) {
                None => Err(RigError::MissingGroup(name.clone())),
                Some(group) => Ok(ascending_set(&group.face_vertex_indices)),
            },
        };
    }
    if same(strategy, "MEAN") {
        return match &regressor.vertex_indices {
            Some(v) => {
                let r = v.clone();
                assert(r@ =~= v@);
                Ok(r)
            },
            None => Ok(Vec::new()),
        };
    }
    Err(RigError::UnknownStrategy(regressor.strategy.clone()))
}

// ---------------------------------------------------------------------------
// Skinning weights
// ---------------------------------------------------------------------------

/// For each bone, by name, the vertices that it moves and how strongly. No
/// name stands twice.
#[derive(Debug, Clone)]
pub struct WeightsJson<T> {
    pub weights: Vec<(String, Vec<(u32, T)>)>,
}

impl<T> WeightsJson<T> {
    pub open spec fn names(&self) -> Seq<Seq<char>> {
        self.weights@.map_values(|w: (String, Vec<(u32, T)>)| w.0@)
    }

    /// No name stands twice.
    pub open spec fn distinct(&self) -> bool {
        self.names().no_duplicates()
    }

    /// The entries by bone name.
    pub open spec fn table(&self) -> Map<Seq<char>, Seq<(u32, T)>> {
        Map::new(
            |name: Seq<char>| crate::names::first_at(self.names(), name) is Some,
            |name: Seq<char>|
                self.weights@[crate::names::first_at(self.names(), name)->0].1@,
        )
    }

    proof fn lemma_entry(&self, i: int)
        requires
            self.distinct(),
            0 <= i < self.weights@.len(),
        ensures
            self.table().contains_key(self.weights@[i].0@),
            self.table()[self.weights@[i].0@] == self.weights@[i].1@,
    {
        let all = self.names();
        assert(all[i] == self.weights@[i].0@);
        crate::names::lemma_first_at(all, all[i]);
    }

    proof fn lemma_no_entry(&self, name: Seq<char>)
        requires
            forall|i: int| 0 <= i < self.weights@.len() ==> (#[trigger] self.weights@[i]).0@ != name,
        ensures
            !self.table().contains_key(name),
    {
        let all = self.names();
        crate::names::lemma_first_at(all, name);
        if let Some(i) = crate::names::first_at(all, name) {
            assert(self.weights@[i].0@ == all[i]);
        }
    }

    /// Where a bone's entries stand.
    fn position(&self, name: &str) -> (r: Option<usize>)
        requires
            self.distinct(),
        ensures
            match r {
                Some(i) => i < self.weights@.len() && self.weights@[i as int].0@ == name@
                    && self.table().contains_key(name@) && self.table()[name@]
                    == self.weights@[i as int].1@,
                None => !self.table().contains_key(name@) && forall|i: int|
                    0 <= i < self.weights@.len() ==> (#[trigger] self.weights@[i]).0@ != name@,
            },
    {
        let mut i: usize = 0;
        while i < self.weights.len()
            invariant
                self.distinct(),
                i <= self.weights@.len(),
                forall|j: int| 0 <= j < i ==> (#[trigger] self.weights@[j]).0@ != name@,
            decreases self.weights.len() - i,
        {
            if same(self.weights[i].0.as_str(), name) {
                proof {
                    self.lemma_entry(i as int);
                }
                return Some(i);
            }
            i = i + 1;
        }
        proof {
            self.lemma_no_entry(name@);
        }
        None
    }

    /// Takes a bone's entries out.
    fn take(&mut self, name: &str) -> (r: Option<Vec<(u32, T)>>)
        requires
            old(self).distinct(),
        ensures
            final(self).distinct(),
            final(self).table() =~= old(self).table().remove(name@),
            match r {
                Some(entries) => old(self).table().contains_key(name@) && entries@
                    == old(self).table()[name@],
                None => !old(self).table().contains_key(name@),
            },
    {
        match self.position(name) {
            None => None,
            Some(i) => {
                let ghost before = *self;
                let entry = self.weights.remove(i);
                proof {
                    let now = *self;
                    assert forall|a: int, b: int|
                        0 <= a < b < now.names().len() implies now.names()[a]
                        != now.names()[b] by {
                        let a2 = if a < i {
                            a
                        } else {
                            a + 1
                        };
                        let b2 = if b < i {
                            b
                        } else {
                            b + 1
                        };
                        assert(now.weights@[a] == before.weights@[a2]);
                        assert(now.weights@[b] == before.weights@[b2]);
                        assert(before.names()[a2] != before.names()[b2]);
                    }
                    assert(now.distinct());
                    assert forall|n: Seq<char>|
                        now.table().contains_key(n) <==> #[trigger] before.table().remove(
                            name@,
                        ).contains_key(n) by {
                        lemma_table_entry(now, n);
                        lemma_table_entry(before, n);
                        if n == name@ && now.table().contains_key(n) {
                            let a = choose|a: int|
                                0 <= a < now.weights@.len() && (#[trigger] now.weights@[a]).0@
                                    == n;
                            let a2 = if a < i {
                                a
                            } else {
                                a + 1
                            };
                            assert(now.weights@[a] == before.weights@[a2]);
                            assert(before.names()[a2] != before.names()[i as int]);
                        } else if now.table().contains_key(n) {
                            let a = choose|a: int|
                                0 <= a < now.weights@.len() && (#[trigger] now.weights@[a]).0@
                                    == n;
                            let a2 = if a < i {
                                a
                            } else {
                                a + 1
                            };
                            assert(now.weights@[a] == before.weights@[a2]);
                            before.lemma_entry(a2);
                        } else if n != name@ && before.table().contains_key(n) {
                            let a = choose|a: int|
                                0 <= a < before.weights@.len() && (
                                #[trigger] before.weights@[a]).0@ == n;
                            let a2 = if a < i {
                                a
                            } else {
                                a - 1
                            };
                            assert(now.weights@[a2] == before.weights@[a]);
                            now.lemma_entry(a2);
                        }
                    }
                    assert forall|n: Seq<char>|
                        now.table().contains_key(n) implies #[trigger] now.table()[n]
                        == before.table().remove(name@)[n] by {
                        assert(before.table().remove(name@).contains_key(n));
                        lemma_table_entry(now, n);
                        let a = choose|a: int|
                            0 <= a < now.weights@.len() && (#[trigger] now.weights@[a]).0@ == n;
                        let a2 = if a < i {
                            a
                        } else {
                            a + 1
                        };
                        assert(now.weights@[a] == before.weights@[a2]);
                        before.lemma_entry(a2);
                        now.lemma_entry(a);
                    }
                }
                Some(entry.1)
            },
        }
    }

    /// Adds to a bone's entries, at their end.
    fn extend(&mut self, name: &str, more: Vec<(u32, T)>)
        requires
            old(self).distinct(),
        ensures
            final(self).distinct(),
            final(self).table() =~= extended(old(self).table(), name@, more@),
    {
        let ghost before = *self;
        match self.position(name) {
            Some(i) => {
                let mut more = more;
                let ghost tail = more@;
                self.weights[i].1.append(&mut more);
                proof {
                    let now = *self;
                    assert(now.names() =~= before.names()) by {
                        assert forall|a: int| 0 <= a < now.names().len() implies now.names()[a]
                            == before.names()[a] by {
                            if a != i {
                                assert(now.weights@[a] == before.weights@[a]);
                            }
                        }
                    }
                    let target = extended(before.table(), name@, tail);
                    assert forall|n: Seq<char>| now.table().contains_key(n) implies
                        #[trigger] now.table()[n] == target[n] by {
                        lemma_table_entry(now, n);
                        let a = choose|a: int|
                            0 <= a < now.weights@.len() && (#[trigger] now.weights@[a]).0@ == n;
                        now.lemma_entry(a);
                        before.lemma_entry(a);
                        assert(now.names()[a] == before.names()[a]);
                        if a != i {
                            assert(now.weights@[a] == before.weights@[a]);
                            assert(before.names()[a] != before.names()[i as int]);
                        }
                    }
                    assert(now.table() =~= target);
                }
            },
            None => {
                let ghost tail = more@;
                self.weights.push((name.to_owned(), more));
                proof {
                    let now = *self;
                    let last = before.weights@.len() as int;
                    assert(now.names() =~= before.names().push(name@));
                    assert(now.distinct()) by {
                        assert forall|a: int| 0 <= a < last implies before.names()[a] != name@ by {
                            assert(before.weights@[a].0@ == before.names()[a]);
                        }
                    }
                    let target = extended(before.table(), name@, tail);
                    now.lemma_entry(last);
                    assert forall|n: Seq<char>|
                        now.table().contains_key(n) <==> #[trigger] target.contains_key(n) by {
                        lemma_table_entry(now, n);
                        lemma_table_entry(before, n);
                        if before.table().contains_key(n) {
                            let a = choose|a: int|
                                0 <= a < before.weights@.len() && (
                                #[trigger] before.weights@[a]).0@ == n;
                            assert(now.weights@[a] == before.weights@[a]);
                        }
                        if now.table().contains_key(n) {
                            let a = choose|a: int|
                                0 <= a < now.weights@.len() && (#[trigger] now.weights@[a]).0@
                                    == n;
                            if a < last {
                                assert(now.weights@[a] == before.weights@[a]);
                            }
                        }
                    }
                    assert forall|n: Seq<char>| now.table().contains_key(n) implies
                        #[trigger] now.table()[n] == target[n] by {
                        lemma_table_entry(now, n);
                        let a = choose|a: int|
                            0 <= a < now.weights@.len() && (#[trigger] now.weights@[a]).0@ == n;
                        now.lemma_entry(a);
                        if a < last {
                            assert(now.weights@[a] == before.weights@[a]);
                            before.lemma_entry(a);
                            assert(before.weights@[a].0@ != name@);
                        } else {
                            assert(target[n] =~= tail);
                        }
                    }
                    assert(now.table() =~= target);
                }
            },
        }
    }
}

impl<T: Copy> WeightsJson<T> {
    /// The same weights once more.
    pub(crate) fn copied(&self) -> (r: Self)
        ensures
            r.table() == self.table(),
            self.distinct() ==> r.distinct(),
    {
        let mut weights: Vec<(String, Vec<(u32, T)>)> = Vec::new();
        for i in 0..self.weights.len()
            invariant
                weights@.len() == i,
                forall|j: int|
                    0 <= j < i ==> (#[trigger] weights@[j]).0@ == self.weights@[j].0@
                        && weights@[j].1@ == self.weights@[j].1@,
        {
            let row = &self.weights[i].1;
            let mut entries: Vec<(u32, T)> = Vec::new();
            for k in 0..row.len()
                invariant
                    entries@ == row@.take(k as int),
            {
                entries.push(row[k]);
                assert(row@.take(k + 1) == row@.take(k as int).push(row@[k as int]));
            }
            assert(row@.take(row@.len() as int) == row@);
            weights.push((self.weights[i].0.clone(), entries));
        }
        let r = WeightsJson { weights };
        proof {
            assert(r.names() =~= self.names()) by {
                assert forall|j: int| 0 <= j < r.names().len() implies r.names()[j]
                    == self.names()[j] by {
                    assert(r.weights@[j].0@ == self.weights@[j].0@);
                }
            }
            assert forall|name: Seq<char>| #[trigger] r.table().contains_key(name) implies
                r.table()[name] == self.table()[name] by {
                crate::names::lemma_first_at(r.names(), name);
                let i = crate::names::first_at(r.names(), name)->0;
                assert(r.weights@[i].1@ == self.weights@[i].1@);
            }
            assert(r.table() =~= self.table());
        }
        r
    }
}

proof fn lemma_table_entry<T>(w: WeightsJson<T>, name: Seq<char>)
    requires
        w.distinct(),
    ensures
        w.table().contains_key(name) <==> exists|i: int|
            0 <= i < w.weights@.len() && (#[trigger] w.weights@[i]).0@ == name,
{
    let all = w.names();
    crate::names::lemma_first_at(all, name);
    if let Some(i) = crate::names::first_at(all, name) {
        assert(w.weights@[i].0@ == name);
    } else {
        assert forall|i: int| 0 <= i < w.weights@.len() implies (#[trigger] w.weights@[i]).0@
            != name by {
            assert(all[i] == w.weights@[i].0@);
        }
    }
}

/// The table with entries added at the end of one bone's.
pub open spec fn extended<T>(
    table: Map<Seq<char>, Seq<(u32, T)>>,
    name: Seq<char>,
    more: Seq<(u32, T)>,
) -> Map<Seq<char>, Seq<(u32, T)>> {
    let old_entries = if table.contains_key(name) {
        table[name]
    } else {
        Seq::empty()
    };
    table.insert(name, old_entries + more)
}

// ---------------------------------------------------------------------------
// Hierarchy
// ---------------------------------------------------------------------------

/// Bones in topological order: `parents[i]` is the position of the parent of
/// bone `i`, below `i`, or `-1` for a root.
#[derive(Debug, Clone)]
pub struct BoneHierarchy<R> {
    pub labels: Vec<String>,
    pub parents: Vec<i64>,
    pub head_regressors: Vec<Vec<u32>>,
    pub tail_regressors: Vec<Vec<u32>>,
    pub rolls: Vec<R>,
}

/// A hierarchy with its skinning weights.
pub struct Bones<R, T> {
    pub labels: Seq<Seq<char>>,
    pub parents: Seq<int>,
    pub heads: Seq<Seq<u32>>,
    pub tails: Seq<Seq<u32>>,
    pub rolls: Seq<R>,
    pub weights: Map<Seq<char>, Seq<(u32, T)>>,
}

/// Every list has one element for each bone.
pub open spec fn same_lengths<R, T>(h: Bones<R, T>) -> bool {
    &&& h.parents.len() == h.labels.len()
    &&& h.heads.len() == h.labels.len()
    &&& h.tails.len() == h.labels.len()
    &&& h.rolls.len() == h.labels.len()
}

/// Parents stand before their children.
pub open spec fn topological(parents: Seq<int>) -> bool {
    forall|i: int| 0 <= i < parents.len() ==> -1 <= #[trigger] parents[i] < i
}

impl<R> BoneHierarchy<R> {
    /// The model of the hierarchy together with a weight table.
    pub open spec fn model<T>(&self, weights: Map<Seq<char>, Seq<(u32, T)>>) -> Bones<R, T> {
        Bones {
            labels: crate::names::views(self.labels@),
            parents: self.parents@.map_values(|p: i64| p as int),
            heads: crate::data::obj::rows(self.head_regressors@),
            tails: crate::data::obj::rows(self.tail_regressors@),
            rolls: self.rolls@,
            weights,
        }
    }

    /// The lists match in length and parents stand before their children.
    pub open spec fn wf(&self) -> bool {
        &&& self.parents@.len() == self.labels@.len()
        &&& self.head_regressors@.len() == self.labels@.len()
        &&& self.tail_regressors@.len() == self.labels@.len()
        &&& self.rolls@.len() == self.labels@.len()
        &&& forall|i: int| 0 <= i < self.parents@.len() ==> -1 <= #[trigger] self.parents@[i] < i
    }
}

/// What becomes of a parent position when the bone at `idx`, whose own parent
/// is `above`, goes: its children pass to its parent, and later bones move up.
pub open spec fn reparented(p: int, idx: int, above: int) -> int {
    if p == idx {
        above
    } else if p > idx {
        p - 1
    } else {
        p
    }
}

/// The hierarchy without the bone at `idx`: its children pass to its parent,
/// and so do its skinning weights, which are lost if it has none.
pub open spec fn without_bone<R, T>(h: Bones<R, T>, idx: int) -> Bones<R, T> {
    let above = h.parents[idx];
    let name = h.labels[idx];
    let rest = h.weights.remove(name);
    Bones {
        labels: h.labels.remove(idx),
        parents: h.parents.map_values(|p: int| reparented(p, idx, above)).remove(idx),
        heads: h.heads.remove(idx),
        tails: h.tails.remove(idx),
        rolls: h.rolls.remove(idx),
        weights: if h.weights.contains_key(name) && above >= 0 {
            extended(rest, h.labels[above], h.weights[name])
        } else {
            rest
        },
    }
}

/// The hierarchy after the first `n` of `names` were taken out one by one;
/// `None` if one of them was not there.
pub open spec fn removals<R, T>(h: Bones<R, T>, names: Seq<Seq<char>>, n: nat) -> Option<Bones<R, T>>
    decreases n,
{
    if n == 0 {
        Some(h)
    } else {
        match removals(h, names, (n - 1) as nat) {
            None => None,
            Some(m) => match crate::names::first_at(m.labels, names[n - 1]) {
                None => None,
                Some(idx) => Some(without_bone(m, idx)),
            },
        }
    }
}

/// Regressor `k` of the bones in the given order: the heads, then the tails.
pub open spec fn regressor_at<R>(
    bones: Seq<(String, RigBoneJson<R>)>,
    order: Seq<usize>,
    k: int,
) -> CoordinateRegressorJson {
    if k < order.len() {
        bones[order[k] as int].1.head
    } else {
        bones[order[k - order.len()] as int].1.tail
    }
}

/// `h` is the hierarchy of the bones in the given order.
pub open spec fn is_start<R, S, T>(
    h: Bones<R, T>,
    bones: Seq<(String, RigBoneJson<R>)>,
    mesh: ObjMesh<S>,
    order: Seq<usize>,
    up: Seq<i64>,
) -> bool {
    &&& same_lengths(h)
    &&& h.labels =~= order.map_values(|i: usize| bones[i as int].0@)
    &&& h.parents =~= up.map_values(|p: i64| p as int)
    &&& h.rolls =~= order.map_values(|i: usize| bones[i as int].1.roll)
    &&& forall|k: int|
        0 <= k < order.len() ==> regressor_vertices(
            regressor_at(bones, order, k),
            mesh,
            #[trigger] h.heads[k],
        )
    &&& forall|k: int|
        0 <= k < order.len() ==> regressor_vertices(
            regressor_at(bones, order, order.len() + k),
            mesh,
            #[trigger] h.tails[k],
        )
}

/// The first faulty regressor is the one at `k`.
pub open spec fn first_fault<R, S>(
    bones: Seq<(String, RigBoneJson<R>)>,
    mesh: ObjMesh<S>,
    order: Seq<usize>,
    k: int,
) -> bool {
    &&& 0 <= k < 2 * order.len()
    &&& regressor_fault(regressor_at(bones, order, k), mesh) is Some
    &&& forall|j: int|
        0 <= j < k ==> regressor_fault(#[trigger] regressor_at(bones, order, j), mesh) is None
}

/// What [`build_hierarchy`] makes of its inputs, given the depth-first order
/// of the bones.
pub open spec fn built<R, S, T>(
    bones: Seq<(String, RigBoneJson<R>)>,
    mesh: ObjMesh<S>,
    names: Seq<Seq<char>>,
    before: Map<Seq<char>, Seq<(u32, T)>>,
    after: Map<Seq<char>, Seq<(u32, T)>>,
    r: Result<BoneHierarchy<R>, RigError>,
    order: Seq<usize>,
    up: Seq<i64>,
) -> bool {
    match r {
        Ok(h) => exists|start: Bones<R, T>|
            #![trigger is_start(start, bones, mesh, order, up)]
            {
                &&& is_start(start, bones, mesh, order, up)
                &&& start.weights == before
                &&& removals(start, names, names.len()) == Some(h.model(after))
            },
        Err(RigError::UnknownBoneToRemove(name)) => exists|start: Bones<R, T>, k: int|
            #![trigger is_start(start, bones, mesh, order, up), names[k]]
            {
                &&& is_start(start, bones, mesh, order, up)
                &&& start.weights == before
                &&& 0 <= k < names.len()
                &&& name@ == names[k]
                &&& removals(start, names, k as nat) is Some
                &&& crate::names::first_at(
                    removals(start, names, k as nat)->0.labels,
                    names[k],
                ) is None
                &&& after == removals(start, names, k as nat)->0.weights
            },
        Err(e) => {
            &&& after == before
            &&& exists|k: int|
                #![trigger regressor_at(bones, order, k)]
                first_fault(bones, mesh, order, k) && reports(
                    e,
                    regressor_fault(regressor_at(bones, order, k), mesh)->0,
                )
        },
    }
}

/// What [`build_hierarchy`] makes of its inputs: an error where the rig does
/// not have one root or a bone names an unknown parent, and otherwise what the
/// depth-first order of the bones leads to.
pub open spec fn hierarchy_outcome<R, S, T>(
    bones: Seq<(String, RigBoneJson<R>)>,
    mesh: ObjMesh<S>,
    names: Seq<Seq<char>>,
    before: WeightsJson<T>,
    after: WeightsJson<T>,
    r: Result<BoneHierarchy<R>, RigError>,
) -> bool {
    match r {
        Err(RigError::BadRootCount { found }) => found == root_count(bones, bones.len()) && found
            != 1 && after == before,
        Err(RigError::UnknownParent(name)) => root_count(bones, bones.len()) == 1 && after
            == before && exists|i: int|
            {
                &&& 0 <= i < bones.len()
                &&& #[trigger] is_orphan(bones, i)
                &&& name@ == parent_name(bones, i)
                &&& forall|j: int| 0 <= j < i ==> !#[trigger] is_orphan(bones, j)
            },
        _ => {
            &&& root_count(bones, bones.len()) == 1
            &&& forall|i: int| 0 <= i < bones.len() ==> !#[trigger] is_orphan(bones, i)
            &&& exists|order: Seq<usize>, up: Seq<i64>|
                #![trigger is_depth_first(parent_of(bones), order, up)]
                is_depth_first(parent_of(bones), order, up) && built(
                    bones,
                    mesh,
                    names,
                    before.table(),
                    after.table(),
                    r,
                    order,
                    up,
                )
        },
    }
}

/// Whatever vertices the regressor names, they are below `n`.
pub open spec fn regressor_within<S>(
    regressor: CoordinateRegressorJson,
    mesh: ObjMesh<S>,
    n: int,
) -> bool {
    forall|vs: Seq<u32>, k: int|
        #![trigger regressor_vertices(regressor, mesh, vs), vs[k]]
        regressor_vertices(regressor, mesh, vs) && 0 <= k < vs.len() ==> vs[k] < n
}

/// The regressors of the rig name vertices below `n`.
pub open spec fn rig_within<R, S>(
    bones: Seq<(String, RigBoneJson<R>)>,
    mesh: ObjMesh<S>,
    n: int,
) -> bool {
    forall|i: int|
        0 <= i < bones.len() ==> regressor_within((#[trigger] bones[i]).1.head, mesh, n)
            && regressor_within(bones[i].1.tail, mesh, n)
}

/// Every row holds numbers below `n`.
pub open spec fn all_below(rows: Seq<Seq<u32>>, n: int) -> bool {
    forall|b: int, k: int|
        0 <= b < rows.len() && 0 <= k < rows[b].len() ==> #[trigger] rows[b][k] < n
}

proof fn lemma_removals_within<R, T>(h: Bones<R, T>, names: Seq<Seq<char>>, n: nat, limit: int)
    requires
        all_below(h.heads, limit),
        all_below(h.tails, limit),
        same_lengths(h),
        removals(h, names, n) is Some,
    ensures
        all_below(removals(h, names, n)->0.heads, limit),
        all_below(removals(h, names, n)->0.tails, limit),
        same_lengths(removals(h, names, n)->0),
    decreases n,
{
    if n > 0 {
        lemma_removals_within(h, names, (n - 1) as nat, limit);
        let m = removals(h, names, (n - 1) as nat)->0;
        crate::names::lemma_first_at(m.labels, names[n - 1]);
        let idx = crate::names::first_at(m.labels, names[n - 1])->0;
        let after = without_bone(m, idx);
        assert forall|b: int, k: int|
            0 <= b < after.heads.len() && 0 <= k < after.heads[b].len() implies
            #[trigger] after.heads[b][k] < limit by {
            let from = if b < idx {
                b
            } else {
                b + 1
            };
            assert(after.heads[b] == m.heads[from]);
            assert(m.heads[from][k] < limit);
        }
        assert forall|b: int, k: int|
            0 <= b < after.tails.len() && 0 <= k < after.tails[b].len() implies
            #[trigger] after.tails[b][k] < limit by {
            let from = if b < idx {
                b
            } else {
                b + 1
            };
            assert(after.tails[b] == m.tails[from]);
            assert(m.tails[from][k] < limit);
        }
    }
}

/// The regressors of a hierarchy name no other vertices than those of the rig.
pub proof fn law_regressors_within<R, S, T>(
    bones: Seq<(String, RigBoneJson<R>)>,
    mesh: ObjMesh<S>,
    names: Seq<Seq<char>>,
    before: WeightsJson<T>,
    after: WeightsJson<T>,
    h: BoneHierarchy<R>,
    n: int,
)
    requires
        rig_within(bones, mesh, n),
        hierarchy_outcome(bones, mesh, names, before, after, Ok(h)),
    ensures
        all_below(crate::data::obj::rows(h.head_regressors@), n),
        all_below(crate::data::obj::rows(h.tail_regressors@), n),
{
    let (order, up) = choose|order: Seq<usize>, up: Seq<i64>|
        #![trigger is_depth_first(parent_of(bones), order, up)]
        is_depth_first(parent_of(bones), order, up) && built(
            bones,
            mesh,
            names,
            before.table(),
            after.table(),
            Ok(h),
            order,
            up,
        );
    let start = choose|start: Bones<R, T>|
        #![trigger is_start(start, bones, mesh, order, up)]
        {
            &&& is_start(start, bones, mesh, order, up)
            &&& start.weights == before.table()
            &&& removals(start, names, names.len()) == Some(h.model(after.table()))
        };
    assert forall|b: int, k: int|
        0 <= b < start.heads.len() && 0 <= k < start.heads[b].len() implies
        #[trigger] start.heads[b][k] < n by {
        assert(regressor_vertices(regressor_at(bones, order, b), mesh, start.heads[b]));
        assert(order[b] < bones.len());
        assert(regressor_within(bones[order[b] as int].1.head, mesh, n));
    }
    assert forall|b: int, k: int|
        0 <= b < start.tails.len() && 0 <= k < start.tails[b].len() implies
        #[trigger] start.tails[b][k] < n by {
        assert(regressor_vertices(
            regressor_at(bones, order, order.len() + b),
            mesh,
            start.tails[b],
        ));
        assert(order[b] < bones.len());
        assert(regressor_within(bones[order[b] as int].1.tail, mesh, n));
    }
    lemma_removals_within(start, names, names.len(), n);
}

/// Takes the bone with the given name out of the hierarchy.
fn remove_bone<R, T>(
    h: &mut BoneHierarchy<R>,
    weights: &mut WeightsJson<T>,
    name: &str,
) -> (found: bool)
    requires
        old(h).wf(),
        old(weights).distinct(),
    ensures
        final(h).wf(),
        final(weights).distinct(),
        ({
            let m = old(h).model(old(weights).table());
            match crate::names::first_at(m.labels, name@) {
                None => !found && *final(h) == *old(h) && *final(weights) == *old(weights),
                Some(idx) => found && final(h).model(final(weights).table()) == without_bone(
                    m,
                    idx,
                ),
            }
        }),
{
    let ghost m = h.model(weights.table());
    let idx: usize = match find_first(&h.labels, name) {
        None => {
            return false;
        },
        Some(idx) => idx,
    };
    let above: i64 = h.parents[idx];
    proof {
        assert(m.labels[idx as int] == name@);
        assert(m.parents[idx as int] == above);
    }
    match weights.take(name) {
        Some(entries) => {
            if above >= 0 {
                weights.extend(h.labels[above as usize].as_str(), entries);
                assert(m.labels[above as int] == h.labels@[above as int]@);
            }
        },
        None => {},
    }
    let ghost parents0 = h.parents@;
    let n: usize = h.parents.len();
    for k in 0..n
        invariant
            n == parents0.len(),
            h.parents@.len() == n,
            idx < n,
            above == parents0[idx as int],
            forall|i: int| 0 <= i < n ==> -1 <= #[trigger] parents0[i] < i,
            h.labels == old(h).labels,
            h.head_regressors == old(h).head_regressors,
            h.tail_regressors == old(h).tail_regressors,
            h.rolls == old(h).rolls,
            forall|i: int| k <= i < n ==> h.parents@[i] == #[trigger] parents0[i],
            forall|i: int|
                0 <= i < k ==> #[trigger] h.parents@[i] == reparented(
                    parents0[i] as int,
                    idx as int,
                    above as int,
                ),
    {
        let p: i64 = h.parents[k];
        assert(p == parents0[k as int]);
        if p >= 0 && p as usize == idx {
            h.parents[k] = above;
        } else if p >= 0 && p as usize > idx {
            h.parents[k] = p - 1;
        }
    }
    let ghost parents1 = h.parents@;
    h.labels.remove(idx);
    h.parents.remove(idx);
    h.head_regressors.remove(idx);
    h.tail_regressors.remove(idx);
    h.rolls.remove(idx);
    proof {
        let now = h.model(weights.table());
        let want = without_bone(m, idx as int);
        assert(now.labels =~= want.labels);
        assert(now.parents =~= want.parents);
        assert(now.heads =~= want.heads);
        assert(now.tails =~= want.tails);
        assert(now.weights =~= want.weights);
        assert(parents1[idx as int] == above);
        assert forall|i: int| 0 <= i < h.parents@.len() implies -1 <= #[trigger] h.parents@[i]
            < i by {
            let j = if i < idx {
                i
            } else {
                i + 1
            };
            assert(h.parents@[i] == parents1[j]);
            assert(-1 <= parents0[j] < j);
            assert(-1 <= parents0[idx as int] < idx);
        }
    }
    true
}

/// Resolves the head or the tail regressors of the bones in the given order.
fn resolve_all<R, S>(
    bones: &Vec<(String, RigBoneJson<R>)>,
    mesh: &ObjMesh<S>,
    order: &Vec<usize>,
    tails: bool,
) -> (r: Result<Vec<Vec<u32>>, RigError>)
    requires
        forall|k: int| 0 <= k < order@.len() ==> 0 <= #[trigger] order@[k] < bones@.len(),
    ensures
        ({
            let base: int = if tails {
                order@.len() as int
            } else {
                0
            };
            match r {
                Ok(lists) => {
                    &&& lists@.len() == order@.len()
                    &&& forall|k: int|
                        base <= k < base + order@.len() ==> regressor_fault(
                            #[trigger] regressor_at(bones@, order@, k),
                            *mesh,
                        ) is None
                    &&& forall|k: int|
                        0 <= k < order@.len() ==> regressor_vertices(
                            regressor_at(bones@, order@, base + k),
                            *mesh,
                            (#[trigger] lists@[k])@,
                        )
                },
                Err(e) => exists|k: int|
                    #![trigger regressor_at(bones@, order@, k)]
                    {
                        &&& base <= k < base + order@.len()
                        &&& regressor_fault(regressor_at(bones@, order@, k), *mesh) is Some
                        &&& reports(
                            e,
                            regressor_fault(regressor_at(bones@, order@, k), *mesh)->0,
                        )
                        &&& forall|j: int|
                            base <= j < k ==> regressor_fault(
                                #[trigger] regressor_at(bones@, order@, j),
                                *mesh,
                            ) is None
                    },
            }
        }),
{
    let ghost base: int = if tails {
        order@.len() as int
    } else {
        0
    };
    let mut lists: Vec<Vec<u32>> = Vec::new();
    let mut k: usize = 0;
    while k < order.len()
        invariant
            k <= order@.len(),
            base == if tails {
                order@.len() as int
            } else {
                0
            },
            forall|k: int| 0 <= k < order@.len() ==> 0 <= #[trigger] order@[k] < bones@.len(),
            lists@.len() == k,
            forall|j: int|
                base <= j < base + k ==> regressor_fault(
                    #[trigger] regressor_at(bones@, order@, j),
                    *mesh,
                ) is None,
            forall|j: int|
                0 <= j < k ==> regressor_vertices(
                    regressor_at(bones@, order@, base + j),
                    *mesh,
                    (#[trigger] lists@[j])@,
                ),
        decreases order.len() - k,
    {
        let bone: &RigBoneJson<R> = &bones[order[k]].1;
        let ghost at = regressor_at(bones@, order@, base + k);
        let resolved = if tails {
            assert(at == bone.tail);
            resolve_regressor(&bone.tail, mesh)
        } else {
            assert(at == bone.head);
            resolve_regressor(&bone.head, mesh)
        };
        match resolved {
            Ok(list) => {
                lists.push(list);
            },
            Err(e) => {
                return Err(e);
            },
        }
        k = k + 1;
    }
    Ok(lists)
}

/// Builds the hierarchy of a rig: the bones in depth-first order with their
/// regressors resolved on the mesh, and then, one after the other, without
/// the bones to remove. The children of a removed bone pass to its parent,
/// and its skinning weights are added to its parent's.
pub fn build_hierarchy<R: Copy, S, T>(
    bones: &Vec<(String, RigBoneJson<R>)>,
    mesh: &ObjMesh<S>,
    bones_to_remove: &Vec<String>,
    weights: &mut WeightsJson<T>,
) -> (r: Result<BoneHierarchy<R>, RigError>)
    requires
        bones@.len() <= i64::MAX,
        bone_names(bones@).no_duplicates(),
        old(weights).distinct(),
    ensures
        final(weights).distinct(),
        hierarchy_outcome(
            bones@,
            *mesh,
            crate::names::views(bones_to_remove@),
            *old(weights),
            *final(weights),
            r,
        ),
        r is Ok ==> r->Ok_0.wf(),
{
    let ghost names = crate::names::views(bones_to_remove@);
    let (order, up) = match dfs_topological_order(bones) {
        Ok(walk) => walk,
        Err(e) => {
            return Err(e);
        },
    };
    let n: usize = order.len();
    let ghost order_s = order@;
    let ghost up_s = up@;
    let head_regressors = match resolve_all(bones, mesh, &order, false) {
        Ok(lists) => lists,
        Err(e) => {
            proof {
                let k = choose|k: int|
                    #![trigger regressor_at(bones@, order@, k)]
                    {
                        &&& 0 <= k < order@.len()
                        &&& regressor_fault(regressor_at(bones@, order@, k), *mesh) is Some
                        &&& reports(
                            e,
                            regressor_fault(regressor_at(bones@, order@, k), *mesh)->0,
                        )
                        &&& forall|j: int|
                            0 <= j < k ==> regressor_fault(
                                #[trigger] regressor_at(bones@, order@, j),
                                *mesh,
                            ) is None
                    };
                assert(first_fault(bones@, *mesh, order@, k));
                assert(built(
                    bones@,
                    *mesh,
                    names,
                    weights.table(),
                    weights.table(),
                    Err::<BoneHierarchy<R>, RigError>(e),
                    order_s,
                    up_s,
                ));
            }
            return Err(e);
        },
    };
    let tail_regressors = match resolve_all(bones, mesh, &order, true) {
        Ok(lists) => lists,
        Err(e) => {
            proof {
                let base = order@.len() as int;
                let k = choose|k: int|
                    #![trigger regressor_at(bones@, order@, k)]
                    {
                        &&& base <= k < base + order@.len()
                        &&& regressor_fault(regressor_at(bones@, order@, k), *mesh) is Some
                        &&& reports(
                            e,
                            regressor_fault(regressor_at(bones@, order@, k), *mesh)->0,
                        )
                        &&& forall|j: int|
                            base <= j < k ==> regressor_fault(
                                #[trigger] regressor_at(bones@, order@, j),
                                *mesh,
                            ) is None
                    };
                assert(first_fault(bones@, *mesh, order@, k));
                assert(built(
                    bones@,
                    *mesh,
                    names,
                    weights.table(),
                    weights.table(),
                    Err::<BoneHierarchy<R>, RigError>(e),
                    order_s,
                    up_s,
                ));
            }
            return Err(e);
        },
    };
    let mut labels: Vec<String> = Vec::new();
    let mut rolls: Vec<R> = Vec::new();
    for k in 0..n
        invariant
            n == order@.len(),
            forall|k: int| 0 <= k < n ==> 0 <= #[trigger] order@[k] < bones@.len(),
            labels@.len() == k,
            rolls@.len() == k,
            forall|j: int|
                0 <= j < k ==> (#[trigger] labels@[j])@ == bones@[order@[j] as int].0@,
            forall|j: int|
                0 <= j < k ==> #[trigger] rolls@[j] == bones@[order@[j] as int].1.roll,
    {
        labels.push(bones[order[k]].0.clone());
        rolls.push(bones[order[k]].1.roll);
    }
    let mut h = BoneHierarchy { labels, parents: up, head_regressors, tail_regressors, rolls };
    let ghost start = h.model(weights.table());
    proof {
        assert(is_start(start, bones@, *mesh, order_s, up_s)) by {
            assert forall|k: int| 0 <= k < order_s.len() implies regressor_vertices(
                regressor_at(bones@, order_s, k),
                *mesh,
                #[trigger] start.heads[k],
            ) by {
                assert(start.heads[k] == h.head_regressors@[k]@);
                assert(regressor_at(bones@, order_s, 0 + k) == regressor_at(bones@, order_s, k));
            }
            assert forall|k: int| 0 <= k < order_s.len() implies regressor_vertices(
                regressor_at(bones@, order_s, order_s.len() + k),
                *mesh,
                #[trigger] start.tails[k],
            ) by {
                assert(start.tails[k] == h.tail_regressors@[k]@);
            }
        }
        assert(removals(start, names, 0) == Some(start));
    }
    let total: usize = bones_to_remove.len();
    for k in 0..total
        invariant
            total == bones_to_remove@.len(),
            names == crate::names::views(bones_to_remove@),
            root_count(bones@, bones@.len()) == 1,
            forall|i: int| 0 <= i < bones@.len() ==> !#[trigger] is_orphan(bones@, i),
            is_depth_first(parent_of(bones@), order_s, up_s),
            is_start(start, bones@, *mesh, order_s, up_s),
            start.weights == old(weights).table(),
            h.wf(),
            weights.distinct(),
            removals(start, names, k as nat) == Some(h.model(weights.table())),
    {
        let ghost before = h.model(weights.table());
        assert(names[k as int] == bones_to_remove@[k as int]@);
        if !remove_bone(&mut h, weights, bones_to_remove[k].as_str()) {
            let e = RigError::UnknownBoneToRemove(bones_to_remove[k].clone());
            proof {
                assert(crate::names::first_at(
                    removals(start, names, k as nat)->0.labels,
                    names[k as int],
                ) is None);
                assert(built(
                    bones@,
                    *mesh,
                    names,
                    old(weights).table(),
                    weights.table(),
                    Err::<BoneHierarchy<R>, RigError>(e),
                    order_s,
                    up_s,
                ));
            }
            return Err(e);
        }
        proof {
            let idx = crate::names::first_at(before.labels, names[k as int]);
            assert(idx is Some);
            assert(removals(start, names, (k + 1) as nat) == Some(without_bone(before, idx->0)));
        }
    }
    proof {
        assert(built(
            bones@,
            *mesh,
            names,
            old(weights).table(),
            weights.table(),
            Ok::<BoneHierarchy<R>, RigError>(h),
            order_s,
            up_s,
        ));
    }
    Ok(h)
}

// ---------------------------------------------------------------------------
// Per-vertex influences
// ---------------------------------------------------------------------------

/// For each vertex the bones that move it and how strongly, all rows padded
/// to the same width with bone 0 at weight zero.
#[derive(Debug, Clone)]
pub struct VertexBoneMatrix<T> {
    pub indices: Vec<Vec<u32>>,
    pub weights: Vec<Vec<T>>,
    pub max_bones_per_vertex: usize,
}

/// The weights that a list of entries gives to vertex `v`.
pub open spec fn weights_for<T>(entries: Seq<(u32, T)>, v: int) -> Seq<T>
    decreases entries.len(),
{
    if entries.len() == 0 {
        Seq::empty()
    } else if entries.last().0 == v {
        weights_for(entries.drop_last(), v).push(entries.last().1)
    } else {
        weights_for(entries.drop_last(), v)
    }
}

/// The entries of a bone; none where the table does not name it.
pub open spec fn entries_of<T>(table: Map<Seq<char>, Seq<(u32, T)>>, label: Seq<char>) -> Seq<
    (u32, T),
> {
    if table.contains_key(label) {
        table[label]
    } else {
        Seq::empty()
    }
}

/// The weights that the first `n` bones give to vertex `v`, bone by bone.
pub open spec fn vertex_weights<T>(
    table: Map<Seq<char>, Seq<(u32, T)>>,
    labels: Seq<Seq<char>>,
    v: int,
    n: nat,
) -> Seq<T>
    decreases n,
{
    if n == 0 {
        Seq::empty()
    } else {
        vertex_weights(table, labels, v, (n - 1) as nat) + weights_for(
            entries_of(table, labels[n - 1]),
            v,
        )
    }
}

/// The bone of each of [`vertex_weights`].
pub open spec fn vertex_bones<T>(
    table: Map<Seq<char>, Seq<(u32, T)>>,
    labels: Seq<Seq<char>>,
    v: int,
    n: nat,
) -> Seq<u32>
    decreases n,
{
    if n == 0 {
        Seq::empty()
    } else {
        vertex_bones(table, labels, v, (n - 1) as nat) + Seq::new(
            weights_for(entries_of(table, labels[n - 1]), v).len(),
            |i: int| (n - 1) as u32,
        )
    }
}

/// `s` made `width` long with copies of `filler`.
pub open spec fn padded<A>(s: Seq<A>, width: nat, filler: A) -> Seq<A> {
    Seq::new(
        width,
        |i: int|
            if i < s.len() {
                s[i]
            } else {
                filler
            },
    )
}

/// `m` is the number of influences of the vertex that has most.
pub open spec fn is_widest<T>(
    table: Map<Seq<char>, Seq<(u32, T)>>,
    labels: Seq<Seq<char>>,
    vertex_count: int,
    m: int,
) -> bool {
    &&& forall|v: int|
        0 <= v < vertex_count ==> #[trigger] vertex_weights(table, labels, v, labels.len()).len()
            <= m
    &&& m == 0 || exists|v: int|
        0 <= v < vertex_count && #[trigger] vertex_weights(table, labels, v, labels.len()).len()
            == m
}

proof fn lemma_row_lengths<T>(
    table: Map<Seq<char>, Seq<(u32, T)>>,
    labels: Seq<Seq<char>>,
    v: int,
    n: nat,
)
    ensures
        vertex_bones(table, labels, v, n).len() == vertex_weights(table, labels, v, n).len(),
    decreases n,
{
    if n > 0 {
        lemma_row_lengths(table, labels, v, (n - 1) as nat);
    }
}

fn pad<A: Copy>(row: &mut Vec<A>, width: usize, filler: A)
    requires
        old(row)@.len() <= width,
    ensures
        final(row)@ == padded(old(row)@, width as nat, filler),
{
    while row.len() < width
        invariant
            old(row)@.len() <= row@.len() <= width,
            forall|i: int| 0 <= i < old(row)@.len() ==> row@[i] == old(row)@[i],
            forall|i: int| old(row)@.len() <= i < row@.len() ==> row@[i] == filler,
        decreases width - row@.len(),
    {
        row.push(filler);
    }
    assert(row@ =~= padded(old(row)@, width as nat, filler));
}

impl<T> VertexBoneMatrix<T> {
    /// Every row has the width of the table.
    pub open spec fn level(&self) -> bool {
        &&& self.weights@.len() == self.indices@.len()
        &&& forall|v: int|
            0 <= v < self.indices@.len() ==> (#[trigger] self.indices@[v])@.len()
                == self.max_bones_per_vertex
        &&& forall|v: int|
            0 <= v < self.weights@.len() ==> (#[trigger] self.weights@[v])@.len()
                == self.max_bones_per_vertex
    }
}

/// `r` is the table of the influences on each vertex: the bones in label
/// order, padded to the width of the longest row, and the shares of the weights
/// of each padded row in their sum.
pub open spec fn is_vertex_bone_matrix<T, O: Division<T> + Signs<T>>(
    weights: WeightsJson<T>,
    labels: Seq<String>,
    vertex_count: int,
    zero: T,
    ops: &O,
    r: VertexBoneMatrix<T>,
) -> bool {
    let table = weights.table();
    let names = crate::names::views(labels);
    let width = r.max_bones_per_vertex as nat;
    &&& r.indices@.len() == vertex_count
    &&& r.weights@.len() == vertex_count
    &&& is_widest(table, names, vertex_count, width as int)
    &&& forall|v: int|
        0 <= v < vertex_count ==> (#[trigger] r.indices@[v])@ == padded(
            vertex_bones(table, names, v, names.len()),
            width,
            0,
        )
    &&& forall|v: int|
        0 <= v < vertex_count ==> crate::utils::shares::are_shares(
            ops,
            zero,
            padded(vertex_weights(table, names, v, names.len()), width, zero),
            (#[trigger] r.weights@[v])@,
        )
}

/// The influences on each vertex, bones in label order, padded to one width;
/// entries for vertices that the mesh does not have are left out. The weights
/// of each row become shares of their sum.
pub fn build_vertex_bone_matrix<T: Copy, O: Division<T> + Signs<T>>(
    weights: &WeightsJson<T>,
    labels: &Vec<String>,
    vertex_count: usize,
    zero: T,
    ops: &O,
) -> (r: VertexBoneMatrix<T>)
    requires
        weights.distinct(),
    ensures
        is_vertex_bone_matrix(*weights, labels@, vertex_count as int, zero, ops, r),
{
    let ghost table = weights.table();
    let ghost names = crate::names::views(labels@);
    let mut indices: Vec<Vec<u32>> = Vec::new();
    let mut rows: Vec<Vec<T>> = Vec::new();
    for v in 0..vertex_count
        invariant
            indices@.len() == v,
            rows@.len() == v,
            forall|j: int| 0 <= j < v ==> (#[trigger] indices@[j])@.len() == 0,
            forall|j: int| 0 <= j < v ==> (#[trigger] rows@[j])@.len() == 0,
    {
        indices.push(Vec::new());
        rows.push(Vec::new());
    }
    proof {
        assert forall|v: int| 0 <= v < vertex_count implies (#[trigger] indices@[v])@
            == vertex_bones(table, names, v, 0) by {
            assert(indices@[v]@ =~= Seq::<u32>::empty());
        }
        assert forall|v: int| 0 <= v < vertex_count implies (#[trigger] rows@[v])@
            == vertex_weights(table, names, v, 0) by {
            assert(rows@[v]@ =~= Seq::<T>::empty());
        }
    }
    let bone_count: usize = labels.len();
    for b in 0..bone_count
        invariant
            bone_count == labels@.len(),
            weights.distinct(),
            table == weights.table(),
            names == crate::names::views(labels@),
            indices@.len() == vertex_count,
            rows@.len() == vertex_count,
            forall|v: int|
                0 <= v < vertex_count ==> (#[trigger] indices@[v])@ == vertex_bones(
                    table,
                    names,
                    v,
                    b as nat,
                ),
            forall|v: int|
                0 <= v < vertex_count ==> (#[trigger] rows@[v])@ == vertex_weights(
                    table,
                    names,
                    v,
                    b as nat,
                ),
    {
        assert(names[b as int] == labels@[b as int]@);
        let ghost entries = entries_of(table, names[b as int]);
        match weights.position(labels[b].as_str()) {
            None => {
                proof {
                    assert(entries.len() == 0);
                    assert forall|v: int| 0 <= v < vertex_count implies (#[trigger] indices@[v])@
                        == vertex_bones(table, names, v, (b + 1) as nat) by {
                        assert(weights_for(entries, v).len() == 0);
                        assert(vertex_bones(table, names, v, (b + 1) as nat) =~= vertex_bones(
                            table,
                            names,
                            v,
                            b as nat,
                        ));
                    }
                    assert forall|v: int| 0 <= v < vertex_count implies (#[trigger] rows@[v])@
                        == vertex_weights(table, names, v, (b + 1) as nat) by {
                        assert(weights_for(entries, v).len() == 0);
                        assert(vertex_weights(table, names, v, (b + 1) as nat) =~= vertex_weights(
                            table,
                            names,
                            v,
                            b as nat,
                        ));
                    }
                }
            },
            Some(at) => {
                let list: &Vec<(u32, T)> = &weights.weights[at].1;
                let count: usize = list.len();
                proof {
                    assert(entries == list@);
                    assert(entries.take(0).len() == 0);
                    assert forall|v: int| 0 <= v < vertex_count implies (#[trigger] indices@[v])@
                        == vertex_bones(table, names, v, b as nat) + Seq::new(
                        weights_for(entries.take(0), v).len(),
                        |i: int| b as u32,
                    ) by {
                        assert(weights_for(entries.take(0), v).len() == 0);
                        assert(indices@[v]@ =~= vertex_bones(table, names, v, b as nat) + Seq::new(
                            weights_for(entries.take(0), v).len(),
                            |i: int| b as u32,
                        ));
                    }
                    assert forall|v: int| 0 <= v < vertex_count implies (#[trigger] rows@[v])@
                        == vertex_weights(table, names, v, b as nat) + weights_for(
                        entries.take(0),
                        v,
                    ) by {
                        assert(rows@[v]@ =~= vertex_weights(table, names, v, b as nat)
                            + weights_for(entries.take(0), v));
                    }
                }
                for e in 0..count
                    invariant
                        count == list@.len(),
                        entries == list@,
                        indices@.len() == vertex_count,
                        rows@.len() == vertex_count,
                        forall|v: int|
                            0 <= v < vertex_count ==> (#[trigger] indices@[v])@ == vertex_bones(
                                table,
                                names,
                                v,
                                b as nat,
                            ) + Seq::new(
                                weights_for(entries.take(e as int), v).len(),
                                |i: int| b as u32,
                            ),
                        forall|v: int|
                            0 <= v < vertex_count ==> (#[trigger] rows@[v])@ == vertex_weights(
                                table,
                                names,
                                v,
                                b as nat,
                            ) + weights_for(entries.take(e as int), v),
                {
                    let (id, w) = list[e];
                    let ghost indices0 = indices@;
                    let ghost rows0 = rows@;
                    let ghost seen = entries.take(e as int);
                    let ghost seen2 = entries.take(e + 1);
                    proof {
                        assert(seen2.drop_last() == seen);
                        assert(seen2.last() == entries[e as int]);
                    }
                    if (id as usize) < vertex_count {
                        indices[id as usize].push(b as u32);
                        rows[id as usize].push(w);
                    }
                    proof {
                        assert forall|v: int| 0 <= v < vertex_count implies (
                        #[trigger] indices@[v])@ == vertex_bones(table, names, v, b as nat)
                            + Seq::new(weights_for(seen2, v).len(), |i: int| b as u32) by {
                            if v == id {
                                assert(indices@[v]@ =~= vertex_bones(table, names, v, b as nat)
                                    + Seq::new(weights_for(seen2, v).len(), |i: int| b as u32));
                            } else {
                                assert(indices@[v] == indices0[v]);
                            }
                        }
                        assert forall|v: int| 0 <= v < vertex_count implies (#[trigger] rows@[v])@
                            == vertex_weights(table, names, v, b as nat) + weights_for(
                            seen2,
                            v,
                        ) by {
                            if v == id {
                                assert(rows@[v]@ =~= vertex_weights(table, names, v, b as nat)
                                    + weights_for(seen2, v));
                            } else {
                                assert(rows@[v] == rows0[v]);
                            }
                        }
                    }
                }
                proof {
                    assert(entries.take(count as int) == entries);
                    assert forall|v: int| 0 <= v < vertex_count implies (#[trigger] indices@[v])@
                        == vertex_bones(table, names, v, (b + 1) as nat) by {
                        assert(indices@[v]@ =~= vertex_bones(table, names, v, (b + 1) as nat));
                    }
                }
            },
        }
    }
    let mut widest: usize = 0;
    for v in 0..vertex_count
        invariant
            rows@.len() == vertex_count,
            names.len() == bone_count,
            forall|u: int|
                0 <= u < vertex_count ==> (#[trigger] rows@[u])@ == vertex_weights(
                    table,
                    names,
                    u,
                    bone_count as nat,
                ),
            forall|u: int|
                0 <= u < v ==> #[trigger] vertex_weights(table, names, u, names.len()).len()
                    <= widest,
            widest == 0 || exists|u: int|
                0 <= u < v && #[trigger] vertex_weights(table, names, u, names.len()).len()
                    == widest,
    {
        let len: usize = rows[v].len();
        assert(rows@[v as int]@ == vertex_weights(table, names, v as int, names.len()));
        if len > widest {
            widest = len;
        }
    }
    let ghost rows0 = rows@;
    let ghost indices0 = indices@;
    let mut scaled: Vec<Vec<T>> = Vec::new();
    for v in 0..vertex_count
        invariant
            rows@.len() == vertex_count,
            indices@.len() == vertex_count,
            rows0.len() == vertex_count,
            indices0.len() == vertex_count,
            scaled@.len() == v,
            names.len() == bone_count,
                is_widest(table, names, vertex_count as int, widest as int),
            forall|u: int|
                0 <= u < vertex_count ==> (#[trigger] rows0[u])@ == vertex_weights(
                    table,
                    names,
                    u,
                    bone_count as nat,
                ),
            forall|u: int|
                0 <= u < vertex_count ==> (#[trigger] indices0[u])@ == vertex_bones(
                    table,
                    names,
                    u,
                    bone_count as nat,
                ),
            forall|u: int| v <= u < vertex_count ==> rows@[u] == #[trigger] rows0[u],
            forall|u: int| v <= u < vertex_count ==> indices@[u] == #[trigger] indices0[u],
            forall|u: int|
                0 <= u < v ==> (#[trigger] indices@[u])@ == padded(
                    vertex_bones(table, names, u, bone_count as nat),
                    widest as nat,
                    0,
                ),
            forall|u: int|
                0 <= u < v ==> crate::utils::shares::are_shares(
                    ops,
                    zero,
                    padded(
                        vertex_weights(table, names, u, bone_count as nat),
                        widest as nat,
                        zero,
                    ),
                    (#[trigger] scaled@[u])@,
                ),
    {
        proof {
            assert(rows@[v as int] == rows0[v as int]);
            assert(indices@[v as int] == indices0[v as int]);
            lemma_row_lengths(table, names, v as int, bone_count as nat);
            assert(vertex_weights(table, names, v as int, names.len()).len() <= widest);
        }
        pad(&mut indices[v], widest, 0);
        let mut row: Vec<T> = Vec::new();
        std::mem::swap(&mut row, &mut rows[v]);
        pad(&mut row, widest, zero);
        scaled.push(normalised(row, zero, ops));
    }
    VertexBoneMatrix { indices, weights: scaled, max_bones_per_vertex: widest }
}

} // verus!
