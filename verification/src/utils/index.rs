//! Lists of vertex indices.
use vstd::prelude::*;

verus! {

/// The values that occur in the first `n` rows.
pub open spec fn occurs(rows: Seq<Vec<u32>>, n: int, x: u32) -> bool {
    exists|i: int, k: int| 0 <= i < n && 0 <= k < rows[i]@.len() && #[trigger] rows[i]@[k] == x
}

pub open spec fn strictly_ascending(s: Seq<u32>) -> bool {
    forall|i: int, j: int| 0 <= i < j < s.len() ==> s[i] < s[j]
}

/// `s` lists the values that occur in `rows`, each once, in ascending order.
pub open spec fn is_ascending_set(s: Seq<u32>, rows: Seq<Vec<u32>>) -> bool {
    &&& strictly_ascending(s)
    &&& forall|x: u32| #[trigger] s.contains(x) <==> occurs(rows, rows.len() as int, x)
}

/// An ascending list of values without repetition is pinned by which values
/// it holds.
pub proof fn law_ascending_set_unique(a: Seq<u32>, b: Seq<u32>, rows: Seq<Vec<u32>>)
    requires
        is_ascending_set(a, rows),
        is_ascending_set(b, rows),
    ensures
        a == b,
{
    lemma_ascending_equal(a, b);
}

proof fn lemma_ascending_equal(a: Seq<u32>, b: Seq<u32>)
    requires
        strictly_ascending(a),
        strictly_ascending(b),
        forall|x: u32| a.contains(x) <==> b.contains(x),
    ensures
        a == b,
    decreases a.len(),
{
    if a.len() == 0 {
        if b.len() > 0 {
            assert(b.contains(b[0]));
        }
        assert(a == b);
    } else {
        assert(a.contains(a[a.len() - 1]));
        assert(b.contains(a.last()));
        assert(b.contains(b[b.len() - 1]));
        assert(a.contains(b.last()));
        let i = choose|i: int| 0 <= i < a.len() && a[i] == b.last();
        let j = choose|j: int| 0 <= j < b.len() && b[j] == a.last();
        assert(a.last() == b.last()) by {
            if i < a.len() - 1 {
                assert(a[i] < a[a.len() - 1]);
            }
            if j < b.len() - 1 {
                assert(b[j] < b[b.len() - 1]);
            }
        }
        let a2 = a.drop_last();
        let b2 = b.drop_last();
        assert forall|x: u32| a2.contains(x) <==> b2.contains(x) by {
            if a2.contains(x) {
                let k = choose|k: int| 0 <= k < a2.len() && a2[k] == x;
                assert(a[k] == x && a[k] < a[a.len() - 1]);
                assert(a.contains(x));
                let l = choose|l: int| 0 <= l < b.len() && b[l] == x;
                assert(l < b.len() - 1);
                assert(b2[l] == x);
            }
            if b2.contains(x) {
                let k = choose|k: int| 0 <= k < b2.len() && b2[k] == x;
                assert(b[k] == x && b[k] < b[b.len() - 1]);
                assert(b.contains(x));
                let l = choose|l: int| 0 <= l < a.len() && a[l] == x;
                assert(l < a.len() - 1);
                assert(a2[l] == x);
            }
        }
        lemma_ascending_equal(a2, b2);
        assert(a == a2.push(a.last()));
        assert(b == b2.push(b.last()));
    }
}

/// Different numbers below `n` are at most `n`.
pub proof fn lemma_distinct_bounded(s: Seq<usize>, n: nat)
    requires
        s.no_duplicates(),
        forall|k: int| 0 <= k < s.len() ==> 0 <= #[trigger] s[k] < n,
    ensures
        s.len() <= n,
    decreases n,
{
    if n == 0 {
        if s.len() > 0 {
            assert(s[0] < 0);
        }
    } else if s.contains((n - 1) as usize) {
        let k = choose|k: int| 0 <= k < s.len() && s[k] == (n - 1) as usize;
        let t = s.remove(k);
        assert forall|i: int, j: int| 0 <= i < t.len() && 0 <= j < t.len() && i != j implies t[i]
            != t[j] by {
            let i2 = if i < k {
                i
            } else {
                i + 1
            };
            let j2 = if j < k {
                j
            } else {
                j + 1
            };
            assert(t[i] == s[i2] && t[j] == s[j2]);
        }
        assert forall|i: int| 0 <= i < t.len() implies 0 <= #[trigger] t[i] < n - 1 by {
            let i2 = if i < k {
                i
            } else {
                i + 1
            };
            assert(t[i] == s[i2]);
            assert(s[i2] != s[k]);
        }
        lemma_distinct_bounded(t, (n - 1) as nat);
    } else {
        assert forall|i: int| 0 <= i < s.len() implies 0 <= #[trigger] s[i] < n - 1 by {
            if s[i] == n - 1 {
                assert(s.contains((n - 1) as usize));
            }
        }
        lemma_distinct_bounded(s, (n - 1) as nat);
    }
}

/// Position of the first element of an ascending list that is not below `x`.
fn lower_bound(s: &Vec<u32>, x: u32) -> (r: usize)
    requires
        strictly_ascending(s@),
    ensures
        r <= s@.len(),
        forall|i: int| 0 <= i < r ==> s@[i] < x,
        forall|i: int| r <= i < s@.len() ==> x <= s@[i],
{
    let mut lo: usize = 0;
    let mut hi: usize = s.len();
    while lo < hi
        invariant
            lo <= hi <= s@.len(),
            strictly_ascending(s@),
            forall|i: int| 0 <= i < lo ==> s@[i] < x,
            forall|i: int| hi <= i < s@.len() ==> x <= s@[i],
        decreases hi - lo,
    {
        let mid: usize = lo + (hi - lo) / 2;
        if s[mid] < x {
            lo = mid + 1;
        } else {
            hi = mid;
        }
    }
    lo
}

/// The values that occur in `rows`, each once, in ascending order.
pub fn ascending_set(rows: &Vec<Vec<u32>>) -> (r: Vec<u32>)
    ensures
        is_ascending_set(r@, rows@),
{
    let mut r: Vec<u32> = Vec::new();
    for i in 0..rows.len()
        invariant
            strictly_ascending(r@),
            forall|x: u32| #[trigger] r@.contains(x) <==> occurs(rows@, i as int, x),
    {
        let width: usize = rows[i].len();
        for k in 0..width
            invariant
                i < rows@.len(),
                width == rows@[i as int]@.len(),
                strictly_ascending(r@),
                forall|x: u32| #[trigger]
                    r@.contains(x) <==> occurs(rows@, i as int, x) || rows@[i as int]@.take(
                        k as int,
                    ).contains(x),
        {
            let x: u32 = rows[i][k];
            let at: usize = lower_bound(&r, x);
            let ghost before = r@;
            let ghost seen = rows@[i as int]@.take(k as int);
            let ghost seen2 = rows@[i as int]@.take(k + 1);
            proof {
                assert(seen2 == seen.push(x));
                assert forall|y: u32| seen2.contains(y) <==> seen.contains(y) || y == x by {
                    if seen.contains(y) {
                        let j = choose|j: int| 0 <= j < seen.len() && seen[j] == y;
                        assert(seen2[j] == y);
                    }
                    if y == x {
                        assert(seen2[k as int] == y);
                    }
                }
            }
            if at < r.len() && r[at] == x {
                assert(r@.contains(x));
            } else {
                r.insert(at, x);
                proof {
                    assert forall|y: u32| #[trigger] r@.contains(y) <==> before.contains(y) || y
                        == x by {
                        if before.contains(y) {
                            let j = choose|j: int| 0 <= j < before.len() && before[j] == y;
                            if j < at {
                                assert(r@[j] == y);
                            } else {
                                assert(r@[j + 1] == y);
                            }
                        }
                        if y == x {
                            assert(r@[at as int] == y);
                        }
                        if r@.contains(y) {
                            let j = choose|j: int| 0 <= j < r@.len() && r@[j] == y;
                            if j < at {
                                assert(before[j] == y);
                            } else if j > at {
                                assert(before[j - 1] == y);
                            }
                        }
                    }
                }
            }
        }
        proof {
            let row = rows@[i as int]@;
            assert(row.take(row.len() as int) == row);
            assert forall|x: u32| #[trigger] r@.contains(x) <==> occurs(rows@, i + 1, x) by {
                if occurs(rows@, i as int, x) {
                    let (a, b) = choose|a: int, b: int|
                        0 <= a < i && 0 <= b < rows@[a]@.len() && #[trigger] rows@[a]@[b] == x;
                    assert(rows@[a]@[b] == x);
                }
                if row.contains(x) {
                    let b = choose|b: int| 0 <= b < row.len() && row[b] == x;
                    assert(rows@[i as int]@[b] == x);
                }
                if occurs(rows@, i + 1, x) {
                    let (a, b) = choose|a: int, b: int|
                        0 <= a < i + 1 && 0 <= b < rows@[a]@.len() && #[trigger] rows@[a]@[b] == x;
                    if a == i {
                        assert(row[b] == x);
                    } else {
                        assert(rows@[a]@[b] == x);
                    }
                }
            }
        }
    }
    r
}

} // verus!
