//! Lookup by name in lists of names.
use vstd::prelude::*;
use vstd::string::*;

use crate::text::chars_of;

verus! {

/// The views of a list of strings.
pub open spec fn views(names: Seq<String>) -> Seq<Seq<char>> {
    names.map_values(|s: String| s@)
}

/// The views of a list of string slices.
pub open spec fn str_views(names: Seq<&str>) -> Seq<Seq<char>> {
    names.map_values(|s: &str| s@)
}

/// Position of the first `name`.
pub open spec fn first_at(names: Seq<Seq<char>>, name: Seq<char>) -> Option<int>
    decreases names.len(),
{
    if names.len() == 0 {
        None
    } else {
        match first_at(names.drop_last(), name) {
            Some(i) => Some(i),
            None => if names.last() == name {
                Some(names.len() - 1)
            } else {
                None
            },
        }
    }
}

/// Position of the last `name`.
pub open spec fn last_at(names: Seq<Seq<char>>, name: Seq<char>) -> Option<int>
    decreases names.len(),
{
    if names.len() == 0 {
        None
    } else if names.last() == name {
        Some(names.len() - 1)
    } else {
        last_at(names.drop_last(), name)
    }
}

pub proof fn lemma_first_at(names: Seq<Seq<char>>, name: Seq<char>)
    ensures
        match first_at(names, name) {
            Some(i) => 0 <= i < names.len() && names[i] == name && forall|j: int|
                0 <= j < i ==> names[j] != name,
            None => forall|j: int| 0 <= j < names.len() ==> names[j] != name,
        },
    decreases names.len(),
{
    if names.len() > 0 {
        let front = names.drop_last();
        lemma_first_at(front, name);
        assert forall|j: int| 0 <= j < names.len() - 1 implies names[j] == front[j] by {}
    }
}

pub proof fn lemma_first_at_is(names: Seq<Seq<char>>, name: Seq<char>, i: int)
    requires
        0 <= i < names.len(),
        names[i] == name,
        forall|j: int| 0 <= j < i ==> names[j] != name,
    ensures
        first_at(names, name) == Some(i),
{
    lemma_first_at(names, name);
}

pub proof fn lemma_last_at(names: Seq<Seq<char>>, name: Seq<char>)
    ensures
        match last_at(names, name) {
            Some(i) => 0 <= i < names.len() && names[i] == name && forall|j: int|
                i < j < names.len() ==> names[j] != name,
            None => forall|j: int| 0 <= j < names.len() ==> names[j] != name,
        },
    decreases names.len(),
{
    if names.len() > 0 && names.last() != name {
        let front = names.drop_last();
        lemma_last_at(front, name);
        assert forall|j: int| 0 <= j < names.len() - 1 implies names[j] == front[j] by {}
    }
}

pub proof fn lemma_last_at_is(names: Seq<Seq<char>>, name: Seq<char>, i: int)
    requires
        0 <= i < names.len(),
        names[i] == name,
        forall|j: int| i < j < names.len() ==> names[j] != name,
    ensures
        last_at(names, name) == Some(i),
{
    lemma_last_at(names, name);
}

/// Whether two names are equal.
pub fn same(a: &str, b: &str) -> (r: bool)
    ensures
        r == (a@ == b@),
{
    let a = a.to_owned();
    let b = b.to_owned();
    a == b
}

/// Position of the first `name` in the list.
pub fn find_first(names: &Vec<String>, name: &str) -> (r: Option<usize>)
    ensures
        match r {
            Some(i) => first_at(views(names@), name@) == Some(i as int),
            None => first_at(views(names@), name@) is None,
        },
        r is Some ==> r->0 < names@.len() && names@[r->0 as int]@ == name@,
{
    let ghost all = views(names@);
    let mut i: usize = 0;
    while i < names.len()
        invariant
            i <= names@.len(),
            all == views(names@),
            forall|j: int| 0 <= j < i ==> all[j] != name@,
        decreases names.len() - i,
    {
        assert(all[i as int] == names@[i as int]@);
        if same(names[i].as_str(), name) {
            proof {
                lemma_first_at_is(all, name@, i as int);
            }
            return Some(i);
        }
        i = i + 1;
    }
    proof {
        lemma_first_at(all, name@);
    }
    None
}

/// Whether `name` is in the list.
pub fn contains(names: &Vec<&str>, name: &str) -> (r: bool)
    ensures
        r == str_views(names@).contains(name@),
{
    let ghost all = str_views(names@);
    for i in 0..names.len()
        invariant
            all == str_views(names@),
            forall|j: int| 0 <= j < i ==> all[j] != name@,
    {
        assert(all[i as int] == names@[i as int]@);
        if same(names[i], name) {
            return true;
        }
    }
    false
}

// ---------------------------------------------------------------------------
// Alphabetical order
// ---------------------------------------------------------------------------

/// `a` stands before `b` in the order of code points.
pub open spec fn stands_before(a: Seq<char>, b: Seq<char>) -> bool
    decreases a.len(),
{
    if b.len() == 0 {
        false
    } else if a.len() == 0 {
        true
    } else if a[0] != b[0] {
        (a[0] as u32) < (b[0] as u32)
    } else {
        stands_before(a.drop_first(), b.drop_first())
    }
}

proof fn lemma_before_asymmetric(a: Seq<char>, b: Seq<char>)
    ensures
        !(stands_before(a, b) && stands_before(b, a)),
    decreases a.len(),
{
    if a.len() > 0 && b.len() > 0 && a[0] == b[0] {
        lemma_before_asymmetric(a.drop_first(), b.drop_first());
    }
}

proof fn lemma_before_transitive(a: Seq<char>, b: Seq<char>, c: Seq<char>)
    requires
        stands_before(a, b),
        !stands_before(c, b),
    ensures
        stands_before(a, c),
    decreases a.len(),
{
    if a.len() > 0 && b.len() > 0 && c.len() > 0 {
        lemma_code_injective(b[0], c[0]);
        if a[0] == b[0] && b[0] == c[0] {
            lemma_before_transitive(a.drop_first(), b.drop_first(), c.drop_first());
        }
    }
}

proof fn lemma_code_injective(a: char, b: char)
    ensures
        a as u32 == b as u32 ==> a == b,
{
}

/// Of two different names one stands before the other.
pub proof fn law_order_total(a: Seq<char>, b: Seq<char>)
    ensures
        a == b || stands_before(a, b) || stands_before(b, a),
    decreases a.len(),
{
    if a.len() == 0 || b.len() == 0 {
        if a.len() == 0 && b.len() == 0 {
            assert(a == b);
        }
    } else if a[0] == b[0] {
        law_order_total(a.drop_first(), b.drop_first());
        if a.drop_first() == b.drop_first() {
            assert(a == seq![a[0]] + a.drop_first());
            assert(b == seq![b[0]] + b.drop_first());
        }
    } else {
        lemma_code_injective(a[0], b[0]);
    }
}

/// Whether `a` stands before `b`.
pub fn is_before(a: &str, b: &str) -> (r: bool)
    ensures
        r == stands_before(a@, b@),
{
    let x = chars_of(a);
    let y = chars_of(b);
    let mut i: usize = 0;
    proof {
        assert(x@.skip(0) == a@);
        assert(y@.skip(0) == b@);
    }
    while i < x.len() && i < y.len()
        invariant
            i <= x@.len(),
            i <= y@.len(),
            stands_before(a@, b@) == stands_before(x@.skip(i as int), y@.skip(i as int)),
        decreases x.len() - i,
    {
        let ghost s = x@.skip(i as int);
        let ghost t = y@.skip(i as int);
        proof {
            assert(s[0] == x@[i as int]);
            assert(t[0] == y@[i as int]);
            assert(s.drop_first() == x@.skip(i + 1));
            assert(t.drop_first() == y@.skip(i + 1));
        }
        if x[i] != y[i] {
            return (x[i] as u32) < (y[i] as u32);
        }
        i = i + 1;
    }
    i == x.len() && i < y.len()
}

/// `order` lists the positions of the names, each once, in alphabetical order.
pub open spec fn is_alphabetical(names: Seq<Seq<char>>, order: Seq<usize>) -> bool {
    &&& order.len() == names.len()
    &&& order.no_duplicates()
    &&& forall|i: int| 0 <= i < order.len() ==> 0 <= #[trigger] order[i] < names.len()
    &&& forall|i: int, j: int|
        0 <= i < j < order.len() ==> !stands_before(
            names[#[trigger] order[j] as int],
            names[#[trigger] order[i] as int],
        )
}

spec fn sorted_upto(names: Seq<Seq<char>>, order: Seq<usize>, n: int) -> bool {
    &&& order.len() == n
    &&& order.no_duplicates()
    &&& forall|i: int| 0 <= i < order.len() ==> 0 <= #[trigger] order[i] < n
    &&& forall|i: int, j: int|
        0 <= i < j < order.len() ==> !stands_before(
            names[#[trigger] order[j] as int],
            names[#[trigger] order[i] as int],
        )
}

proof fn lemma_inserted(names: Seq<Seq<char>>, order: Seq<usize>, n: int, at: int)
    requires
        0 <= n < names.len(),
        n <= usize::MAX,
        sorted_upto(names, order, n),
        0 <= at <= n,
        forall|i: int| 0 <= i < at ==> !stands_before(names[n], names[#[trigger] order[i] as int]),
        at < n ==> stands_before(names[n], names[order[at] as int]),
    ensures
        sorted_upto(names, order.insert(at, n as usize), n + 1),
{
    let longer = order.insert(at, n as usize);
    assert forall|i: int| 0 <= i < longer.len() implies 0 <= #[trigger] longer[i] < n + 1 by {
        if i < at {
            assert(longer[i] == order[i]);
        } else if i > at {
            assert(longer[i] == order[i - 1]);
        }
    }
    assert forall|i: int, j: int| 0 <= i < j < longer.len() implies longer[i] != longer[j] by {
        let i2 = if i < at {
            i
        } else {
            i - 1
        };
        let j2 = if j < at {
            j
        } else {
            j - 1
        };
        if i != at {
            assert(longer[i] == order[i2]);
        }
        if j != at {
            assert(longer[j] == order[j2]);
        }
    }
    assert forall|i: int, j: int| 0 <= i < j < longer.len() implies !stands_before(
        names[#[trigger] longer[j] as int],
        names[#[trigger] longer[i] as int],
    ) by {
        if j < at {
            assert(longer[i] == order[i] && longer[j] == order[j]);
        } else if j == at {
            assert(longer[i] == order[i]);
        } else if i == at {
            assert(longer[j] == order[j - 1]);
            let x = names[n];
            let p = names[order[at] as int];
            let y = names[order[j - 1] as int];
            if j - 1 > at {
                assert(!stands_before(y, p));
                lemma_before_transitive(x, p, y);
            }
            lemma_before_asymmetric(x, y);
        } else {
            let i2 = if i < at {
                i
            } else {
                i - 1
            };
            assert(longer[i] == order[i2] && longer[j] == order[j - 1]);
        }
    }
}

/// The positions of the names in alphabetical order.
pub fn alphabetical(names: &Vec<String>) -> (order: Vec<usize>)
    ensures
        is_alphabetical(views(names@), order@),
{
    let ghost all = views(names@);
    let mut order: Vec<usize> = Vec::new();
    for n in 0..names.len()
        invariant
            all == views(names@),
            sorted_upto(all, order@, n as int),
    {
        let mut at: usize = 0;
        assert(all[n as int] == names@[n as int]@);
        while at < n
            invariant
                at <= n,
                n < names@.len(),
                all == views(names@),
                all[n as int] == names@[n as int]@,
                sorted_upto(all, order@, n as int),
                forall|i: int|
                    0 <= i < at ==> !stands_before(
                        all[n as int],
                        all[#[trigger] order@[i] as int],
                    ),
            ensures
                at < n ==> stands_before(all[n as int], all[order@[at as int] as int]),
            decreases n - at,
        {
            assert(order@[at as int] < n);
            assert(all[order@[at as int] as int] == names@[order@[at as int] as int]@);
            if is_before(names[n].as_str(), names[order[at]].as_str()) {
                break;
            }
            at = at + 1;
        }
        proof {
            lemma_inserted(all, order@, n as int, at as int);
        }
        order.insert(at, n);
    }
    order
}

/// Of the first `n` labels those that are not among `keep`.
pub open spec fn others(labels: Seq<Seq<char>>, keep: Seq<Seq<char>>, n: nat) -> Seq<Seq<char>>
    decreases n,
{
    if n == 0 {
        Seq::empty()
    } else if keep.contains(labels[n - 1]) {
        others(labels, keep, (n - 1) as nat)
    } else {
        others(labels, keep, (n - 1) as nat).push(labels[n - 1])
    }
}

/// The others are exactly the labels that are not to be kept.
pub proof fn law_others_not_kept(labels: Seq<Seq<char>>, keep: Seq<Seq<char>>, n: nat, l: Seq<char>)
    requires
        n <= labels.len(),
    ensures
        others(labels, keep, n).contains(l) <==> labels.take(n as int).contains(l)
            && !keep.contains(l),
    decreases n,
{
    if n > 0 {
        law_others_not_kept(labels, keep, (n - 1) as nat, l);
        let before = others(labels, keep, (n - 1) as nat);
        let front = labels.take(n - 1);
        let now = labels.take(n as int);
        let last = labels[n - 1];
        assert(now == front.push(last));
        if front.contains(l) {
            let i = choose|i: int| 0 <= i < front.len() && front[i] == l;
            assert(now[i] == l);
        }
        assert(now[n - 1] == last);
        if now.contains(l) && l != last {
            let i = choose|i: int| 0 <= i < now.len() && now[i] == l;
            assert(front[i] == l);
        }
        if before.contains(l) {
            let i = choose|i: int| 0 <= i < before.len() && before[i] == l;
            assert(before.push(last)[i] == l);
        }
        assert(before.push(last)[before.len() as int] == last);
        if before.push(last).contains(l) && l != last {
            let i = choose|i: int| 0 <= i < before.push(last).len() && before.push(last)[i] == l;
            assert(before[i] == l);
        }
    } else {
        assert(!labels.take(0).contains(l));
    }
}

} // verus!
