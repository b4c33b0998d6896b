//! The file of a macrodetail target names the variations that gate it.
use vstd::prelude::*;
use vstd::string::*;

use crate::models::macrodetails::PlannedTarget;

verus! {

/// The parts of a name, with a hyphen between each two.
pub open spec fn with_hyphens(parts: Seq<Seq<char>>) -> Seq<char>
    decreases parts.len(),
{
    if parts.len() == 0 {
        Seq::empty()
    } else if parts.len() == 1 {
        parts[0]
    } else {
        parts[0] + seq!['-'] + with_hyphens(parts.skip(1))
    }
}

proof fn lemma_hyphens(parts: Seq<Seq<char>>)
    ensures
        crate::models::macrodetails::hyphenated(parts) == with_hyphens(parts),
    decreases parts.len(),
{
    if parts.len() == 2 {
        let less = parts.drop_last();
        assert(parts.skip(1).len() == 1 && parts.skip(1)[0] == parts[1]);
        assert(crate::models::macrodetails::hyphenated(less) == parts[0]);
        assert(with_hyphens(parts.skip(1)) == parts[1]);
    } else if parts.len() > 2 {
        let less = parts.drop_last();
        let rest = parts.skip(1);
        lemma_hyphens(less);
        lemma_hyphens(rest);
        lemma_hyphens(rest.drop_last());
        assert(less.skip(1) =~= rest.drop_last());
        assert(less[0] == parts[0] && rest.last() == parts.last());
        assert(with_hyphens(less) == parts[0] + seq!['-'] + with_hyphens(less.skip(1)));
        assert(crate::models::macrodetails::hyphenated(rest)
            == crate::models::macrodetails::hyphenated(rest.drop_last()) + seq!['-'] + rest.last());
        assert(crate::models::macrodetails::hyphenated(parts) =~= with_hyphens(parts));
    }
}

/// The labels of columns.
pub open spec fn labels_at(cols: Seq<int>) -> Seq<Seq<char>> {
    Seq::new(cols.len(), |k: int| crate::phenotype::variation_labels()[cols[k]])
}

/// The target is gated by exactly the columns, and has a newborn where the columns
/// have a baby if it is one of newborns.
pub open spec fn is_gated(t: PlannedTarget, cols: Seq<int>) -> bool {
    let labels = crate::phenotype::variation_labels();
    &&& t.mask@.len() == labels.len()
    &&& forall|v: int|
        0 <= v < labels.len() && labels[v] != "newborn"@ && labels[v] != "baby"@ ==> (
        #[trigger] t.mask@[v] <==> cols.contains(v))
    &&& forall|v: int|
        0 <= v < labels.len() && labels[v] == "newborn"@ ==> !cols.contains(v) && (
        #[trigger] t.mask@[v] <==> t.newborn)
    &&& forall|v: int|
        0 <= v < labels.len() && labels[v] == "baby"@ ==> (t.newborn ==> cols.contains(v)) && (
        #[trigger] t.mask@[v] <==> cols.contains(v) && !t.newborn)
}

/// A target is gated by a variation with one of the labels.
pub open spec fn gated_by(t: PlannedTarget, wanted: Seq<Seq<char>>) -> bool {
    exists|v: int|
        0 <= v < t.mask@.len() && #[trigger] t.mask@[v] && wanted.contains(
            crate::phenotype::variation_labels()[v],
        )
}

/// The directory of a target, and what its name begins with.
pub open spec fn is_placed(t: PlannedTarget, dir: Seq<char>, first: Seq<Seq<char>>) -> bool {
    if gated_by(t, seq!["minheight"@, "maxheight"@]) {
        dir == "mpfb2/targets/macrodetails/height/"@ && first.len() == 0
    } else if gated_by(t, seq!["idealproportions"@, "uncommonproportions"@]) {
        dir == "mpfb2/targets/macrodetails/proportions/"@ && first.len() == 0
    } else if gated_by(t, seq!["mincup"@, "averagecup"@, "maxcup"@]) {
        dir == "mpfb2/targets/breast/"@ && first.len() == 0
    } else if gated_by(t, seq!["african"@, "asian"@, "caucasian"@]) {
        dir == "mpfb2/targets/macrodetails/"@ && first.len() == 0
    } else {
        dir == "mpfb2/targets/macrodetails/"@ && first == seq!["universal"@]
    }
}

/// The columns of a macrodetail target, by its number.
spec fn columns(i: int) -> Seq<int> {
    if i < 90 {
        seq![3 + i / 45, 5 + age_column((i / 9) % 5), 10 + (i / 3) % 3, 13 + i % 3]
    } else if i < 120 {
        let j = i - 90;
        seq![j / 10, 3 + (j / 5) % 2, 5 + age_column(j % 5)]
    } else if i < 300 {
        let j = i - 120;
        seq![
            3 + j / 90,
            5 + age_column((j / 18) % 5),
            10 + (j / 6) % 3,
            13 + (j / 2) % 3,
            16 + j % 2,
        ]
    } else if i < 408 {
        let j = i - 300;
        seq![3 + j / 54, 7 + (j / 18) % 3, 10 + (j / 6) % 3, 13 + (j / 2) % 3, 18 + j % 2]
    } else {
        let j = i - 408;
        seq![
            4int,
            7 + j / 81,
            10 + (j / 27) % 3,
            13 + (j / 9) % 3,
            20 + (j / 3) % 3,
            23 + j % 3,
        ]
    }
}

spec fn age_column(a: int) -> int {
    if a == 0 {
        1
    } else {
        a
    }
}

/// The columns of the gates of a target.
spec fn gate_columns(i: int) -> Seq<int> {
    let e = crate::models::macrodetails::target_entries()[i];
    if e.newborn {
        columns(i).update(
            if i < 90 || i >= 120 {
                1
            } else {
                2
            },
            5,
        )
    } else {
        columns(i)
    }
}

proof fn lemma_columns(i: int)
    requires
        0 <= i < 651,
    ensures
        ({
            let e = crate::models::macrodetails::target_entries()[i];
            let cols = columns(i);
            &&& e.path == directory(i) + crate::models::macrodetails::hyphenated(beginning(i) + labels_at(cols))
                + ".target.gz"@
            &&& e.gates =~= labels_at(gate_columns(i))
            &&& forall|k: int| 0 <= k < cols.len() ==> 0 <= #[trigger] cols[k] < 26 && cols[k] != 5
            &&& forall|j: int, k: int| 0 <= j < k < cols.len() ==> #[trigger] cols[j] < #[trigger] cols[k]
            &&& e.newborn ==> cols.contains(6)
        }),
{
    let e = crate::models::macrodetails::target_entries()[i];
    let cols = columns(i);
    let labels = crate::phenotype::variation_labels();
    if i < 90 {
        assert(e == crate::models::macrodetails::universal_entry(i));
        assert(0 <= i / 45 < 2);
        let parts = seq!["universal"@] + labels_at(cols);
        assert(parts =~= seq![
            "universal"@,
            crate::phenotype::genders()[i / 45],
            crate::models::macrodetails::age_file((i / 9) % 5),
            crate::phenotype::muscles()[(i / 3) % 3],
            crate::phenotype::weights()[i % 3],
        ]);
        assert(cols[1] == 5 + age_column((i / 9) % 5));
    } else if i < 120 {
        let j = i - 90;
        assert(e == crate::models::macrodetails::race_entry(j));
        assert(0 <= j / 10 < 3);
        let parts = Seq::<Seq<char>>::empty() + labels_at(cols);
        assert(parts =~= seq![
            crate::phenotype::races()[j / 10],
            crate::phenotype::genders()[(j / 5) % 2],
            crate::models::macrodetails::age_file(j % 5),
        ]);
        assert(cols[2] == 5 + age_column(j % 5));
    } else if i < 300 {
        let j = i - 120;
        assert(e == crate::models::macrodetails::height_entry(j));
        assert(0 <= j / 90 < 2);
        let parts = Seq::<Seq<char>>::empty() + labels_at(cols);
        assert(parts =~= seq![
            crate::phenotype::genders()[j / 90],
            crate::models::macrodetails::age_file((j / 18) % 5),
            crate::phenotype::muscles()[(j / 6) % 3],
            crate::phenotype::weights()[(j / 2) % 3],
            crate::phenotype::heights()[j % 2],
        ]);
        assert(cols[1] == 5 + age_column((j / 18) % 5));
    } else if i < 408 {
        let j = i - 300;
        assert(e == crate::models::macrodetails::proportions_entry(j));
        assert(0 <= j / 54 < 2);
        let parts = Seq::<Seq<char>>::empty() + labels_at(cols);
        assert(parts =~= seq![
            crate::phenotype::genders()[j / 54],
            crate::phenotype::ages()[2 + (j / 18) % 3],
            crate::phenotype::muscles()[(j / 6) % 3],
            crate::phenotype::weights()[(j / 2) % 3],
            crate::phenotype::proportions()[j % 2],
        ]);
    } else {
        let j = i - 408;
        assert(e == crate::models::macrodetails::breast_entry(j));
        assert(0 <= j / 81 < 3);
        let parts = Seq::<Seq<char>>::empty() + labels_at(cols);
        assert(parts =~= seq![
            crate::phenotype::genders()[1],
            crate::phenotype::ages()[2 + j / 81],
            crate::phenotype::muscles()[(j / 27) % 3],
            crate::phenotype::weights()[(j / 9) % 3],
            crate::phenotype::cupsizes()[(j / 3) % 3],
            crate::phenotype::firmnesses()[j % 3],
        ]);
    }
}

/// Columns hold a label where they hold its column.
proof fn lemma_label_at(cols: Seq<int>, v: int)
    requires
        0 <= v < 26,
        forall|k: int| 0 <= k < cols.len() ==> 0 <= #[trigger] cols[k] < 26,
    ensures
        labels_at(cols).contains(crate::phenotype::variation_labels()[v]) <==> cols.contains(v),
{
    let labels = crate::phenotype::variation_labels();
    let names = labels_at(cols);
    crate::phenotype::law_variations_distinct();
    if names.contains(labels[v]) {
        let k = choose|k: int| 0 <= k < names.len() && names[k] == labels[v];
        assert(labels[cols[k]] == labels[v]);
        assert(cols[k] == v);
    }
    if cols.contains(v) {
        let k = choose|k: int| 0 <= k < cols.len() && cols[k] == v;
        assert(names[k] == labels[v]);
    }
}

proof fn lemma_gated_by(t: PlannedTarget, wanted: Seq<Seq<char>>, from: int)
    requires
        t.mask@.len() == 26,
        0 <= from,
        from + wanted.len() <= 26,
        forall|k: int|
            0 <= k < wanted.len() ==> #[trigger] wanted[k] == crate::phenotype::variation_labels()[from
                + k],
    ensures
        gated_by(t, wanted) <==> exists|v: int| from <= v < from + wanted.len() && #[trigger] t.mask@[v],
{
    let labels = crate::phenotype::variation_labels();
    crate::phenotype::law_variations_distinct();
    if gated_by(t, wanted) {
        let v = choose|v: int|
            0 <= v < t.mask@.len() && #[trigger] t.mask@[v] && wanted.contains(labels[v]);
        let k = choose|k: int| 0 <= k < wanted.len() && wanted[k] == labels[v];
        assert(labels[from + k] == labels[v]);
        assert(from + k == v);
    }
    if exists|v: int| from <= v < from + wanted.len() && #[trigger] t.mask@[v] {
        let v = choose|v: int| from <= v < from + wanted.len() && #[trigger] t.mask@[v];
        assert(wanted[v - from] == labels[v]);
    }
}

/// A target is gated by the columns that it is called after.
#[verifier::rlimit(40)]
proof fn lemma_gated(t: PlannedTarget, i: int)
    requires
        0 <= i < 651,
        crate::models::macrodetails::is_planned(
            t,
            crate::models::macrodetails::target_entries()[i],
        ),
    ensures
        is_gated(t, columns(i)),
        forall|v: int|
            0 <= v < 26 && #[trigger] t.mask@[v] ==> v == 5 || columns(i).contains(v),
        forall|k: int|
            0 <= k < columns(i).len() && #[trigger] columns(i)[k] != 6 ==> t.mask@[columns(i)[k]],
{
    let labels = crate::phenotype::variation_labels();
    let e = crate::models::macrodetails::target_entries()[i];
    let cols = columns(i);
    let gates = gate_columns(i);
    lemma_columns(i);
    crate::phenotype::law_variations_distinct();
    let at: int = if i < 90 || i >= 120 {
        1
    } else {
        2
    };
    assert(e.newborn ==> at < cols.len() && cols[at] == 6);
    assert(e.gates == labels_at(gates));
    assert forall|v: int| 0 <= v < 26 implies (#[trigger] t.mask@[v] <==> gates.contains(v)) by {
        lemma_label_at(gates, v);
    }
    assert forall|v: int| 0 <= v < 26 implies (#[trigger] gates.contains(v) <==> if e.newborn {
        v == 5 || (v != 6 && cols.contains(v))
    } else {
        cols.contains(v)
    }) by {
        if e.newborn {
            if gates.contains(v) {
                let k = choose|k: int| 0 <= k < gates.len() && gates[k] == v;
                if k != at {
                    assert(cols[k] == v);
                    assert(cols[k] != cols[at]);
                }
            }
            if v == 5 {
                assert(gates[at] == 5);
            }
            if v != 6 && cols.contains(v) {
                let k = choose|k: int| 0 <= k < cols.len() && cols[k] == v;
                assert(gates[k] == v);
            }
        }
    }
    assert(labels[5] == "newborn"@ && labels[6] == "baby"@);
    assert forall|v: int| 0 <= v < 26 implies (#[trigger] labels[v] == "newborn"@ <==> v == 5) && (
    labels[v] == "baby"@ <==> v == 6) by {
        if v != 5 {
            assert(labels[v] != labels[5]);
        }
        if v != 6 {
            assert(labels[v] != labels[6]);
        }
    }
    assert(!cols.contains(5)) by {
        if cols.contains(5) {
            let k = choose|k: int| 0 <= k < cols.len() && cols[k] == 5;
            assert(cols[k] != 5);
        }
    }
    assert forall|v: int| 0 <= v < 26 && #[trigger] t.mask@[v] implies v == 5 || cols.contains(v) by {
        assert(gates.contains(v));
    }
    assert forall|k: int| 0 <= k < cols.len() && #[trigger] cols[k] != 6 implies t.mask@[cols[k]] by {
        assert(cols.contains(cols[k]));
        assert(gates.contains(cols[k]));
    }
}

/// The directory of a target, by its number.
spec fn directory(i: int) -> Seq<char> {
    if i < 120 {
        "mpfb2/targets/macrodetails/"@
    } else if i < 300 {
        "mpfb2/targets/macrodetails/height/"@
    } else if i < 408 {
        "mpfb2/targets/macrodetails/proportions/"@
    } else {
        "mpfb2/targets/breast/"@
    }
}

spec fn beginning(i: int) -> Seq<Seq<char>> {
    if i < 90 {
        seq!["universal"@]
    } else {
        Seq::empty()
    }
}

#[verifier::rlimit(40)]
proof fn lemma_placed(t: PlannedTarget, i: int)
    requires
        0 <= i < 651,
        crate::models::macrodetails::is_planned(
            t,
            crate::models::macrodetails::target_entries()[i],
        ),
    ensures
        is_placed(t, directory(i), beginning(i)),
{
    let cols = columns(i);
    lemma_gated(t, i);
    assert(t.mask@.len() == 26);
    lemma_gated_by(t, seq!["minheight"@, "maxheight"@], 16);
    lemma_gated_by(t, seq!["idealproportions"@, "uncommonproportions"@], 18);
    lemma_gated_by(t, seq!["mincup"@, "averagecup"@, "maxcup"@], 20);
    lemma_gated_by(t, seq!["african"@, "asian"@, "caucasian"@], 0);
    if i < 90 {
        assert forall|v: int| #[trigger] t.mask@[v] && 0 <= v < 26 implies 3 <= v < 16 by {
            if v != 5 {
                assert(cols.contains(v));
            }
        }
    } else if i < 120 {
        assert forall|v: int| #[trigger] t.mask@[v] && 0 <= v < 26 implies v < 10 by {
            if v != 5 {
                assert(cols.contains(v));
            }
        }
        assert(0 <= (i - 90) / 10 < 3);
        assert(cols[0] < 3 && t.mask@[cols[0]]);
    } else if i < 300 {
        assert(cols[4] == 16 || cols[4] == 17);
        assert(t.mask@[cols[4]]);
    } else if i < 408 {
        assert forall|v: int| #[trigger] t.mask@[v] && 0 <= v < 26 implies v != 16 && v != 17 by {
            if v != 5 {
                assert(cols.contains(v));
            }
        }
        assert(cols[4] == 18 || cols[4] == 19);
        assert(t.mask@[cols[4]]);
    } else {
        assert forall|v: int| #[trigger] t.mask@[v] && 0 <= v < 26 implies v < 16 || v >= 20 by {
            if v != 5 {
                assert(cols.contains(v));
            }
        }
        assert(20 <= cols[4] < 23);
        assert(t.mask@[cols[4]]);
    }
}

#[verifier::rlimit(40)]
proof fn lemma_optional(t: PlannedTarget, i: int)
    requires
        0 <= i < crate::models::macrodetails::target_entries().len(),
        crate::models::macrodetails::is_planned(
            t,
            crate::models::macrodetails::target_entries()[i],
        ),
    ensures
        t.optional <==> gated_by(t, seq!["mincup"@, "averagecup"@, "maxcup"@]),
{
    let cols = columns(i);
    lemma_columns(i);
    lemma_gated(t, i);
    lemma_gated_by(t, seq!["mincup"@, "averagecup"@, "maxcup"@], 20);
    if i < 408 {
        assert forall|v: int| #[trigger] t.mask@[v] && 0 <= v < 26 implies v < 20 by {
            if v != 5 {
                assert(cols.contains(v));
            }
        }
    } else {
        assert(20 <= cols[4] < 23);
        assert(t.mask@[cols[4]]);
    }
}

/// The file of a macrodetail target is called after exactly the variations that
/// gate it, in the order of their columns: it stands in the directory of its kind,
/// and a target of newborns takes the file of the babies.
pub proof fn law_files_name_their_gates(targets: Vec<PlannedTarget>, i: int) -> (r: (
    Seq<char>,
    Seq<Seq<char>>,
    Seq<int>,
))
    requires
        call_ensures(crate::models::macrodetails::macrodetail_targets, (), targets),
        0 <= i < targets@.len(),
    ensures
        targets@[i].path@ == r.0 + with_hyphens(r.1 + labels_at(r.2)) + ".target.gz"@,
        is_placed(targets@[i], r.0, r.1),
        is_gated(targets@[i], r.2),
        targets@[i].optional <==> gated_by(
            targets@[i],
            seq!["mincup"@, "averagecup"@, "maxcup"@],
        ),
        forall|k: int|
            0 <= k < r.2.len() ==> 0 <= #[trigger] r.2[k]
                < crate::phenotype::variation_labels().len(),
        forall|j: int, k: int| 0 <= j < k < r.2.len() ==> #[trigger] r.2[j] < #[trigger] r.2[k],
{
    let t = targets@[i];
    let cols = columns(i);
    assert(crate::models::macrodetails::is_planned(
        t,
        crate::models::macrodetails::target_entries()[i],
    ));
    lemma_columns(i);
    lemma_gated(t, i);
    lemma_placed(t, i);
    lemma_optional(t, i);
    lemma_hyphens(beginning(i) + labels_at(cols));
    (directory(i), beginning(i), cols)
}

/// Some macrodetail target has exactly the gates.
pub open spec fn has_target(gates: Seq<Seq<char>>) -> bool {
    exists|i: int|
        0 <= i < crate::models::macrodetails::target_entries().len() && (
        #[trigger] crate::models::macrodetails::target_entries()[i]).gates == gates
}

#[verifier::rlimit(40)]
proof fn lemma_combination(
    race: int,
    gender: int,
    age: int,
    muscle: int,
    weight: int,
    two: int,
)
    requires
        0 <= race < 3,
        0 <= gender < 2,
        0 <= age < 5,
        0 <= muscle < 3,
        0 <= weight < 3,
        0 <= two < 2,
    ensures
        ({
            let r = seq!["african"@, "asian"@, "caucasian"@][race];
            let g = seq!["male"@, "female"@][gender];
            let a = seq!["newborn"@, "baby"@, "child"@, "young"@, "old"@][age];
            let m = seq!["minmuscle"@, "averagemuscle"@, "maxmuscle"@][muscle];
            let w = seq!["minweight"@, "averageweight"@, "maxweight"@][weight];
            let h = seq!["minheight"@, "maxheight"@][two];
            &&& has_target(seq![g, a, m, w])
            &&& has_target(seq![r, g, a])
            &&& has_target(seq![g, a, m, w, h])
        }),
{
    let all = crate::models::macrodetails::target_entries();
    let r = seq!["african"@, "asian"@, "caucasian"@][race];
    let g = seq!["male"@, "female"@][gender];
    let a = seq!["newborn"@, "baby"@, "child"@, "young"@, "old"@][age];
    let m = seq!["minmuscle"@, "averagemuscle"@, "maxmuscle"@][muscle];
    let w = seq!["minweight"@, "averageweight"@, "maxweight"@][weight];
    let h = seq!["minheight"@, "maxheight"@][two];
    let i = 45 * gender + 9 * age + 3 * muscle + weight;
    assert(i / 45 == gender && (i / 9) % 5 == age && (i / 3) % 3 == muscle && i % 3 == weight);
    assert(all[i] == crate::models::macrodetails::universal_entry(i));
    assert(all[i].gates =~= seq![g, a, m, w]);
    let j = 10 * race + 5 * gender + age;
    assert(j / 10 == race && (j / 5) % 2 == gender && j % 5 == age);
    assert(all[90 + j] == crate::models::macrodetails::race_entry(j));
    assert(all[90 + j].gates =~= seq![r, g, a]);
    let k = 90 * gender + 18 * age + 6 * muscle + 2 * weight + two;
    assert(k / 90 == gender && (k / 18) % 5 == age && (k / 6) % 3 == muscle && (k / 2) % 3 == weight
        && k % 2 == two);
    assert(all[120 + k] == crate::models::macrodetails::height_entry(k));
    assert(all[120 + k].gates =~= seq![g, a, m, w, h]);
}

#[verifier::rlimit(40)]
proof fn lemma_older(
    gender: int,
    age: int,
    muscle: int,
    weight: int,
    two: int,
    cup: int,
    firmness: int,
)
    requires
        0 <= gender < 2,
        2 <= age < 5,
        0 <= muscle < 3,
        0 <= weight < 3,
        0 <= two < 2,
        0 <= cup < 3,
        0 <= firmness < 3,
    ensures
        ({
            let g = seq!["male"@, "female"@][gender];
            let a = seq!["newborn"@, "baby"@, "child"@, "young"@, "old"@][age];
            let m = seq!["minmuscle"@, "averagemuscle"@, "maxmuscle"@][muscle];
            let w = seq!["minweight"@, "averageweight"@, "maxweight"@][weight];
            let p = seq!["idealproportions"@, "uncommonproportions"@][two];
            let c = seq!["mincup"@, "averagecup"@, "maxcup"@][cup];
            let f = seq!["minfirmness"@, "averagefirmness"@, "maxfirmness"@][firmness];
            &&& has_target(seq![g, a, m, w, p])
            &&& has_target(seq!["female"@, a, m, w, c, f])
        }),
{
    let all = crate::models::macrodetails::target_entries();
    let g = seq!["male"@, "female"@][gender];
    let a = seq!["newborn"@, "baby"@, "child"@, "young"@, "old"@][age];
    let m = seq!["minmuscle"@, "averagemuscle"@, "maxmuscle"@][muscle];
    let w = seq!["minweight"@, "averageweight"@, "maxweight"@][weight];
    let p = seq!["idealproportions"@, "uncommonproportions"@][two];
    let c = seq!["mincup"@, "averagecup"@, "maxcup"@][cup];
    let f = seq!["minfirmness"@, "averagefirmness"@, "maxfirmness"@][firmness];
    let l = 54 * gender + 18 * (age - 2) + 6 * muscle + 2 * weight + two;
    assert(l / 54 == gender && (l / 18) % 3 == age - 2 && (l / 6) % 3 == muscle && (l / 2) % 3
        == weight && l % 2 == two);
    assert(all[300 + l] == crate::models::macrodetails::proportions_entry(l));
    assert(all[300 + l].gates =~= seq![g, a, m, w, p]);
    let n = 81 * (age - 2) + 27 * muscle + 9 * weight + 3 * cup + firmness;
    assert(n / 81 == age - 2 && (n / 27) % 3 == muscle && (n / 9) % 3 == weight && (n / 3) % 3
        == cup && n % 3 == firmness);
    assert(all[408 + n] == crate::models::macrodetails::breast_entry(n));
    assert(all[408 + n].gates =~= seq!["female"@, a, m, w, c, f]);
}

/// Every combination of variations has its targets: that of gender, age, muscle and
/// weight, those of race, of height and, from childhood on, of proportions, and of
/// women from childhood on that of cup size and firmness.
pub proof fn law_every_combination_has_targets(
    race: int,
    gender: int,
    age: int,
    muscle: int,
    weight: int,
    two: int,
    cup: int,
    firmness: int,
)
    requires
        0 <= race < 3,
        0 <= gender < 2,
        0 <= age < 5,
        0 <= muscle < 3,
        0 <= weight < 3,
        0 <= two < 2,
        0 <= cup < 3,
        0 <= firmness < 3,
    ensures
        ({
            let r = seq!["african"@, "asian"@, "caucasian"@][race];
            let g = seq!["male"@, "female"@][gender];
            let a = seq!["newborn"@, "baby"@, "child"@, "young"@, "old"@][age];
            let m = seq!["minmuscle"@, "averagemuscle"@, "maxmuscle"@][muscle];
            let w = seq!["minweight"@, "averageweight"@, "maxweight"@][weight];
            let h = seq!["minheight"@, "maxheight"@][two];
            let p = seq!["idealproportions"@, "uncommonproportions"@][two];
            let c = seq!["mincup"@, "averagecup"@, "maxcup"@][cup];
            let f = seq!["minfirmness"@, "averagefirmness"@, "maxfirmness"@][firmness];
            &&& has_target(seq![g, a, m, w])
            &&& has_target(seq![r, g, a])
            &&& has_target(seq![g, a, m, w, h])
            &&& age >= 2 ==> has_target(seq![g, a, m, w, p])
            &&& age >= 2 ==> has_target(seq!["female"@, a, m, w, c, f])
        }),
{
    lemma_combination(race, gender, age, muscle, weight, two);
    if age >= 2 {
        lemma_older(gender, age, muscle, weight, two, cup, firmness);
    }
}

} // verus!
