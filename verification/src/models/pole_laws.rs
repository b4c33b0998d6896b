//! The local changes of a catalogue: which targets pull in which direction.
use vstd::prelude::*;

use crate::models::macrodetails::{ChangeEntry, LocalChange, TargetGroup};

verus! {

/// The catalogue names both targets of a side of a category of a group: `positive` and
/// `negative` are the first that stand under the key of the side, and not empty.
pub open spec fn is_listed(
    groups: Seq<TargetGroup>,
    g: int,
    c: int,
    side: Seq<char>,
    positive: Seq<char>,
    negative: Seq<char>,
) -> bool {
    &&& 0 <= g < groups.len()
    &&& 0 <= c < groups[g].categories@.len()
    &&& side == "left"@ || side == "right"@ || side == "unsided"@
    &&& groups[g].categories@[c].opposites is Some
    &&& is_under(groups[g].categories@[c].opposites->0@, "positive-"@ + side, positive)
    &&& is_under(groups[g].categories@[c].opposites->0@, "negative-"@ + side, negative)
    &&& positive.len() > 0
    &&& negative.len() > 0
}

/// The first entry with the key has the name.
pub open spec fn is_under(entries: Seq<(String, String)>, key: Seq<char>, name: Seq<char>) -> bool {
    exists|i: int|
        {
            &&& 0 <= i < entries.len()
            &&& (#[trigger] entries[i]).0@ == key
            &&& entries[i].1@ == name
            &&& forall|k: int| 0 <= k < i ==> (#[trigger] entries[k]).0@ != key
        }
}

proof fn lemma_opposite(entries: Seq<(String, String)>, key: Seq<char>, name: Seq<char>)
    ensures
        crate::models::macrodetails::opposite(entries, key) == Some(name) <==> is_under(
            entries,
            key,
            name,
        ) && name.len() > 0,
{
    let names = crate::models::macrodetails::opposite_names(entries);
    crate::names::lemma_first_at(names, key);
    match crate::names::first_at(names, key) {
        Some(i) => {
            assert(entries[i].0@ == names[i]);
            assert forall|k: int| 0 <= k < i implies (#[trigger] entries[k]).0@ != key by {
                assert(names[k] != key);
            }
            if is_under(entries, key, name) {
                let j = choose|j: int|
                    {
                        &&& 0 <= j < entries.len()
                        &&& (#[trigger] entries[j]).0@ == key
                        &&& entries[j].1@ == name
                        &&& forall|k: int| 0 <= k < j ==> (#[trigger] entries[k]).0@ != key
                    };
                assert(names[j] == key);
                assert(i == j);
            }
        },
        None => {
            if is_under(entries, key, name) {
                let j = choose|j: int| 0 <= j < entries.len() && (#[trigger] entries[j]).0@ == key;
                assert(names[j] == key);
            }
        },
    }
}

/// The change is one of the category.
spec fn of_category(
    group: TargetGroup,
    c: int,
    e: ChangeEntry,
) -> bool {
    crate::models::macrodetails::category_changes(group.name@, group.categories@[c]).contains(e)
}

proof fn lemma_category(groups: Seq<TargetGroup>, g: int, c: int, e: ChangeEntry)
    requires
        0 <= g < groups.len(),
        0 <= c < groups[g].categories@.len(),
    ensures
        of_category(groups[g], c, e) <==> e.group == groups[g].name@ && exists|side: Seq<char>|
            #[trigger] is_listed(groups, g, c, side, e.positive, e.negative),
{
    let group = groups[g].name@;
    let category = groups[g].categories@[c];
    match category.opposites {
        None => {
            assert(!crate::models::macrodetails::category_changes(group, category).contains(e));
        },
        Some(o) => {
            let sides = crate::models::macrodetails::sides();
            let (l, r, u) = (
                crate::models::macrodetails::side_change(group, o@, sides[0]),
                crate::models::macrodetails::side_change(group, o@, sides[1]),
                crate::models::macrodetails::side_change(group, o@, sides[2]),
            );
            let all = l + r + u;
            assert(all == crate::models::macrodetails::category_changes(group, category));
            lemma_side(groups, g, c, "left"@, e);
            lemma_side(groups, g, c, "right"@, e);
            lemma_side(groups, g, c, "unsided"@, e);
            if all.contains(e) {
                let i = choose|i: int| 0 <= i < all.len() && all[i] == e;
                if i < l.len() {
                    assert(l[i] == e);
                } else if i < l.len() + r.len() {
                    assert(r[i - l.len()] == e);
                } else {
                    assert(u[i - l.len() - r.len()] == e);
                }
            }
            if l.contains(e) {
                assert(all[0] == e);
            }
            if r.contains(e) {
                assert(all[l.len() as int] == e);
            }
            if u.contains(e) {
                assert(all[(l.len() + r.len()) as int] == e);
            }
        },
    }
}

proof fn lemma_side(groups: Seq<TargetGroup>, g: int, c: int, side: Seq<char>, e: ChangeEntry)
    requires
        0 <= g < groups.len(),
        0 <= c < groups[g].categories@.len(),
        groups[g].categories@[c].opposites is Some,
        side == "left"@ || side == "right"@ || side == "unsided"@,
    ensures
        crate::models::macrodetails::side_change(
            groups[g].name@,
            groups[g].categories@[c].opposites->0@,
            side,
        ).contains(e) <==> e.group == groups[g].name@ && is_listed(
            groups,
            g,
            c,
            side,
            e.positive,
            e.negative,
        ),
{
    let group = groups[g].name@;
    let o = groups[g].categories@[c].opposites->0@;
    let some = crate::models::macrodetails::side_change(group, o, side);
    lemma_opposite(o, "positive-"@ + side, e.positive);
    lemma_opposite(o, "negative-"@ + side, e.negative);
    if some.contains(e) {
        assert(some[0] == e);
    }
    if e.group == group && is_listed(groups, g, c, side, e.positive, e.negative) {
        assert(some[0] == e);
    }
}

proof fn lemma_group(group: TargetGroup, n: nat, e: ChangeEntry)
    requires
        n <= group.categories@.len(),
    ensures
        crate::models::macrodetails::group_changes(group, n).contains(e) <==> exists|c: int|
            0 <= c < n && #[trigger] of_category(group, c, e),
    decreases n,
{
    let now = crate::models::macrodetails::group_changes(group, n);
    if n > 0 {
        let before = crate::models::macrodetails::group_changes(group, (n - 1) as nat);
        let more = crate::models::macrodetails::category_changes(
            group.name@,
            group.categories@[n - 1],
        );
        lemma_group(group, (n - 1) as nat, e);
        assert(now == before + more);
        lemma_either(before, more, e);
        if more.contains(e) {
            assert(of_category(group, n - 1, e));
        }
    } else {
        assert(!now.contains(e));
    }
}

proof fn lemma_either<A>(a: Seq<A>, b: Seq<A>, x: A)
    ensures
        (a + b).contains(x) <==> a.contains(x) || b.contains(x),
{
    if (a + b).contains(x) {
        let i = choose|i: int| 0 <= i < (a + b).len() && (a + b)[i] == x;
        if i < a.len() {
            assert(a[i] == x);
        } else {
            assert(b[i - a.len()] == x);
        }
    }
    if a.contains(x) {
        let i = choose|i: int| 0 <= i < a.len() && a[i] == x;
        assert((a + b)[i] == x);
    }
    if b.contains(x) {
        let i = choose|i: int| 0 <= i < b.len() && b[i] == x;
        assert((a + b)[a.len() + i] == x);
    }
}

/// The change is one of a group that is wanted.
spec fn of_group(groups: Seq<TargetGroup>, genitals: bool, g: int, e: ChangeEntry) -> bool {
    &&& groups[g].name@ != "genitals"@ || genitals
    &&& crate::models::macrodetails::group_changes(
        groups[g],
        groups[g].categories@.len(),
    ).contains(e)
}

proof fn lemma_groups(
    groups: Seq<TargetGroup>,
    order: Seq<usize>,
    genitals: bool,
    n: nat,
    e: ChangeEntry,
)
    ensures
        crate::models::macrodetails::ordered_changes(groups, order, genitals, n).contains(e)
            <==> exists|k: int| 0 <= k < n && of_group(groups, genitals, (#[trigger] order[k]) as int, e),
    decreases n,
{
    let now = crate::models::macrodetails::ordered_changes(groups, order, genitals, n);
    if n > 0 {
        let before = crate::models::macrodetails::ordered_changes(
            groups,
            order,
            genitals,
            (n - 1) as nat,
        );
        let group = groups[order[n - 1] as int];
        let more = if group.name@ == "genitals"@ && !genitals {
            Seq::empty()
        } else {
            crate::models::macrodetails::group_changes(group, group.categories@.len())
        };
        lemma_groups(groups, order, genitals, (n - 1) as nat, e);
        assert(now == before + more);
        lemma_either(before, more, e);
        if more.contains(e) {
            assert(of_group(groups, genitals, order[n - 1] as int, e));
        }
    } else {
        assert(!now.contains(e));
    }
}

/// The entry of a local change.
pub open spec fn entry_of(c: LocalChange) -> (Seq<char>, Seq<char>, Seq<char>) {
    (c.group@, c.positive@, c.negative@)
}

/// The local changes of a catalogue are exactly those whose two targets it names: for
/// each side of each category of each group, other than the genitals unless they
/// are wanted, the target under `positive-` pulls in the positive direction and the
/// one under `negative-` in the negative one.
pub proof fn law_changes_have_opposite_poles(
    groups: Vec<TargetGroup>,
    genitals: bool,
    r: Vec<LocalChange>,
    entry: (Seq<char>, Seq<char>, Seq<char>),
)
    requires
        call_ensures(
            crate::models::macrodetails::local_changes,
            (&groups, genitals),
            r,
        ),
        groups@.len() <= usize::MAX,
    ensures
        (exists|i: int| 0 <= i < r@.len() && entry_of(#[trigger] r@[i]) == entry) <==> (exists|
            g: int,
            c: int,
            side: Seq<char>,
        |
            {
                &&& #[trigger] is_listed(groups@, g, c, side, entry.1, entry.2)
                &&& groups@[g].name@ == entry.0
                &&& groups@[g].name@ != "genitals"@ || genitals
            }),
{
    let order = choose|order: Seq<usize>| #[trigger]
        crate::names::is_alphabetical(
            crate::models::macrodetails::group_names(groups@),
            order,
        ) && crate::models::macrodetails::are_changes(
            r@,
            crate::models::macrodetails::ordered_changes(
                groups@,
                order,
                genitals,
                groups@.len(),
            ),
        );
    let names = crate::models::macrodetails::group_names(groups@);
    let n = groups@.len();
    let all = crate::models::macrodetails::ordered_changes(groups@, order, genitals, n);
    let e = ChangeEntry { group: entry.0, positive: entry.1, negative: entry.2 };
    lemma_groups(groups@, order, genitals, n, e);
    if exists|i: int| 0 <= i < r@.len() && entry_of(#[trigger] r@[i]) == entry {
        let i = choose|i: int| 0 <= i < r@.len() && entry_of(#[trigger] r@[i]) == entry;
        assert(crate::models::macrodetails::is_change(r@[i], all[i]));
        assert(all[i] == e);
        assert(all.contains(e));
        let k = choose|k: int|
            0 <= k < n && of_group(groups@, genitals, (#[trigger] order[k]) as int, e);
        let g = order[k] as int;
        lemma_group(groups@[g], groups@[g].categories@.len(), e);
        let c = choose|c: int|
            0 <= c < groups@[g].categories@.len() && #[trigger] of_category(groups@[g], c, e);
        lemma_category(groups@, g, c, e);
        let side = choose|side: Seq<char>| #[trigger]
            is_listed(groups@, g, c, side, e.positive, e.negative);
        assert(is_listed(groups@, g, c, side, entry.1, entry.2));
    }
    if exists|g: int, c: int, side: Seq<char>|
        {
            &&& #[trigger] is_listed(groups@, g, c, side, entry.1, entry.2)
            &&& groups@[g].name@ == entry.0
            &&& groups@[g].name@ != "genitals"@ || genitals
        } {
        let (g, c, side) = choose|g: int, c: int, side: Seq<char>|
            {
                &&& #[trigger] is_listed(groups@, g, c, side, entry.1, entry.2)
                &&& groups@[g].name@ == entry.0
                &&& groups@[g].name@ != "genitals"@ || genitals
            };
        assert(is_listed(groups@, g, c, side, e.positive, e.negative));
        lemma_category(groups@, g, c, e);
        lemma_group(groups@[g], groups@[g].categories@.len(), e);
        assert(of_category(groups@[g], c, e));
        let k = crate::models::label_laws::lemma_every_position(names, order, g);
        assert(of_group(groups@, genitals, order[k] as int, e));
        assert(all.contains(e));
        let i = choose|i: int| 0 <= i < all.len() && all[i] == e;
        assert(crate::models::macrodetails::is_change(r@[i], all[i]));
        assert(entry_of(r@[i]) == entry);
    }
}

/// The file of a target of a local change stands in the directory of its group, under
/// its own name.
pub proof fn law_change_files(group: &str, label: &str, r: String)
    requires
        call_ensures(crate::models::blend_shapes::change_path, (group, label), r),
    ensures
        r@ == "mpfb2/targets/"@ + group@ + "/"@ + label@ + ".target.gz"@,
{
}

} // verus!
