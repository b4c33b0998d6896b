//! Which blend-shape targets make up the body: the macrodetails, each gated
//! by the variations that it stands for, and the local changes.
use vstd::prelude::*;
use vstd::string::*;

pub use crate::models::blend_shapes::{load_all, MacrodetailsError, StackedBlendShapes};

use crate::names::{alphabetical, contains, same};
use crate::phenotype::{variation_columns, variations};

verus! {

/// One macrodetail target file.
#[derive(Debug, Clone)]
pub struct PlannedTarget {
    /// The file, below the data directory.
    pub path: String,
    /// For each column whether the target is gated by that variation.
    pub mask: Vec<bool>,
    /// Whether the offsets are scaled from those of a baby to a newborn.
    pub newborn: bool,
    /// Whether the target is left out where its file does not exist.
    pub optional: bool,
}

/// A target file and the variations that gate it.
pub struct TargetEntry {
    pub path: Seq<char>,
    pub gates: Seq<Seq<char>>,
    pub newborn: bool,
    pub optional: bool,
}

/// A target has its bit in exactly the columns of its gates.
pub open spec fn is_mask(mask: Seq<bool>, gates: Seq<Seq<char>>) -> bool {
    let labels = crate::phenotype::variation_labels();
    &&& mask.len() == labels.len()
    &&& forall|v: int| 0 <= v < mask.len() ==> #[trigger] mask[v] == gates.contains(labels[v])
}

pub open spec fn is_planned(t: PlannedTarget, e: TargetEntry) -> bool {
    &&& t.path@ == e.path
    &&& is_mask(t.mask@, e.gates)
    &&& t.newborn == e.newborn
    &&& t.optional == e.optional
}

/// The age whose file is read for age `a`: a newborn is made from a baby.
pub open spec fn age_file(a: int) -> Seq<char> {
    if a == 0 {
        crate::phenotype::ages()[1]
    } else {
        crate::phenotype::ages()[a]
    }
}

/// `parts` joined by hyphens.
pub open spec fn hyphenated(parts: Seq<Seq<char>>) -> Seq<char>
    decreases parts.len(),
{
    if parts.len() == 0 {
        Seq::empty()
    } else if parts.len() == 1 {
        parts[0]
    } else {
        hyphenated(parts.drop_last()) + seq!['-'] + parts.last()
    }
}

pub open spec fn target_path(dir: Seq<char>, parts: Seq<Seq<char>>) -> Seq<char> {
    dir + hyphenated(parts) + ".target.gz"@
}

/// The targets of gender, age, muscle and weight.
pub open spec fn universal_entry(i: int) -> TargetEntry {
    let g = crate::phenotype::genders()[i / 45];
    let a = (i / 9) % 5;
    let m = crate::phenotype::muscles()[(i / 3) % 3];
    let w = crate::phenotype::weights()[i % 3];
    TargetEntry {
        path: target_path(
            "mpfb2/targets/macrodetails/"@,
            seq!["universal"@, g, age_file(a), m, w],
        ),
        gates: seq![g, crate::phenotype::ages()[a], m, w],
        newborn: a == 0,
        optional: false,
    }
}

/// The targets of race, gender and age.
pub open spec fn race_entry(i: int) -> TargetEntry {
    let r = crate::phenotype::races()[i / 10];
    let g = crate::phenotype::genders()[(i / 5) % 2];
    let a = i % 5;
    TargetEntry {
        path: target_path("mpfb2/targets/macrodetails/"@, seq![r, g, age_file(a)]),
        gates: seq![r, g, crate::phenotype::ages()[a]],
        newborn: a == 0,
        optional: false,
    }
}

/// The targets of gender, age, muscle, weight and height.
pub open spec fn height_entry(i: int) -> TargetEntry {
    let g = crate::phenotype::genders()[i / 90];
    let a = (i / 18) % 5;
    let m = crate::phenotype::muscles()[(i / 6) % 3];
    let w = crate::phenotype::weights()[(i / 2) % 3];
    let h = crate::phenotype::heights()[i % 2];
    TargetEntry {
        path: target_path(
            "mpfb2/targets/macrodetails/height/"@,
            seq![g, age_file(a), m, w, h],
        ),
        gates: seq![g, crate::phenotype::ages()[a], m, w, h],
        newborn: a == 0,
        optional: false,
    }
}

/// The targets of gender, age from childhood on, muscle, weight and
/// proportions.
pub open spec fn proportions_entry(i: int) -> TargetEntry {
    let g = crate::phenotype::genders()[i / 54];
    let a = crate::phenotype::ages()[2 + (i / 18) % 3];
    let m = crate::phenotype::muscles()[(i / 6) % 3];
    let w = crate::phenotype::weights()[(i / 2) % 3];
    let p = crate::phenotype::proportions()[i % 2];
    TargetEntry {
        path: target_path("mpfb2/targets/macrodetails/proportions/"@, seq![g, a, m, w, p]),
        gates: seq![g, a, m, w, p],
        newborn: false,
        optional: false,
    }
}

/// The targets of age from childhood on, muscle, weight, cup size and
/// firmness, for women. A file may be missing.
pub open spec fn breast_entry(i: int) -> TargetEntry {
    let g = crate::phenotype::genders()[1];
    let a = crate::phenotype::ages()[2 + i / 81];
    let m = crate::phenotype::muscles()[(i / 27) % 3];
    let w = crate::phenotype::weights()[(i / 9) % 3];
    let c = crate::phenotype::cupsizes()[(i / 3) % 3];
    let f = crate::phenotype::firmnesses()[i % 3];
    TargetEntry {
        path: target_path("mpfb2/targets/breast/"@, seq![g, a, m, w, c, f]),
        gates: seq![g, a, m, w, c, f],
        newborn: false,
        optional: true,
    }
}

/// All macrodetail targets, in stacking order: universal, race, height,
/// proportions, breast.
pub open spec fn target_entries() -> Seq<TargetEntry> {
    Seq::new(90, |i: int| universal_entry(i)) + Seq::new(30, |i: int| race_entry(i)) + Seq::new(
        180,
        |i: int| height_entry(i),
    ) + Seq::new(108, |i: int| proportions_entry(i)) + Seq::new(243, |i: int| breast_entry(i))
}

fn join_path(dir: &str, parts: &Vec<&str>) -> (r: String)
    ensures
        r@ == target_path(dir@, crate::names::str_views(parts@)),
{
    let mut r = dir.to_owned();
    let ghost all = crate::names::str_views(parts@);
    assert(r@ == dir@ + hyphenated(all.take(0)));
    for i in 0..parts.len()
        invariant
            all == crate::names::str_views(parts@),
            r@ == dir@ + hyphenated(all.take(i as int)),
    {
        let ghost seen = all.take(i + 1);
        proof {
            assert(seen.drop_last() == all.take(i as int));
            assert(seen.last() == parts@[i as int]@);
        }
        if i > 0 {
            r.append("-");
            proof {
                reveal_strlit("-");
                assert("-"@ == seq!['-']);
            }
        }
        r.append(parts[i]);
        assert(r@ == dir@ + hyphenated(seen));
    }
    assert(all.take(parts@.len() as int) == all);
    r.append(".target.gz");
    r
}

/// Sets the bits of the columns that the gates name.
pub fn set_mask(gates: &Vec<&str>) -> (mask: Vec<bool>)
    ensures
        is_mask(mask@, crate::names::str_views(gates@)),
{
    let labels = variation_columns();
    let mut mask: Vec<bool> = Vec::new();
    for v in 0..labels.len()
        invariant
            crate::names::str_views(labels@) == crate::phenotype::variation_labels(),
            mask@.len() == v,
            forall|j: int|
                0 <= j < v ==> #[trigger] mask@[j] == crate::names::str_views(gates@).contains(
                    crate::phenotype::variation_labels()[j],
                ),
    {
        assert(crate::phenotype::variation_labels()[v as int] == labels@[v as int]@);
        mask.push(contains(gates, labels[v]));
    }
    assert(labels@.len() == crate::names::str_views(labels@).len());
    mask
}

fn planned(
    dir: &str,
    parts: Vec<&str>,
    gates: Vec<&str>,
    newborn: bool,
    optional: bool,
) -> (r: PlannedTarget)
    ensures
        is_planned(
            r,
            TargetEntry {
                path: target_path(dir@, crate::names::str_views(parts@)),
                gates: crate::names::str_views(gates@),
                newborn,
                optional,
            },
        ),
{
    PlannedTarget {
        path: join_path(dir, &parts),
        mask: set_mask(&gates),
        newborn,
        optional,
    }
}

/// The lists that the targets are made from.
struct Lists {
    races: Vec<&'static str>,
    genders: Vec<&'static str>,
    ages: Vec<&'static str>,
    muscles: Vec<&'static str>,
    weights: Vec<&'static str>,
    heights: Vec<&'static str>,
    proportions: Vec<&'static str>,
    cupsizes: Vec<&'static str>,
    firmnesses: Vec<&'static str>,
}

spec fn lists_ok(l: Lists) -> bool {
    &&& crate::names::str_views(l.races@) =~= crate::phenotype::races()
    &&& crate::names::str_views(l.genders@) =~= crate::phenotype::genders()
    &&& crate::names::str_views(l.ages@) =~= crate::phenotype::ages()
    &&& crate::names::str_views(l.muscles@) =~= crate::phenotype::muscles()
    &&& crate::names::str_views(l.weights@) =~= crate::phenotype::weights()
    &&& crate::names::str_views(l.heights@) =~= crate::phenotype::heights()
    &&& crate::names::str_views(l.proportions@) =~= crate::phenotype::proportions()
    &&& crate::names::str_views(l.cupsizes@) =~= crate::phenotype::cupsizes()
    &&& crate::names::str_views(l.firmnesses@) =~= crate::phenotype::firmnesses()
}

fn lists() -> (l: Lists)
    ensures
        lists_ok(l),
{
    proof {
        crate::phenotype::law_features();
    }
    Lists {
        races: variations("race"),
        genders: variations("gender"),
        ages: variations("age"),
        muscles: variations("muscle"),
        weights: variations("weight"),
        heights: variations("height"),
        proportions: variations("proportions"),
        cupsizes: variations("cupsize"),
        firmnesses: variations("firmness"),
    }
}

/// The element of a list, and its view.
fn pick(list: &Vec<&'static str>, i: usize) -> (r: &'static str)
    requires
        i < list@.len(),
    ensures
        r@ == crate::names::str_views(list@)[i as int],
{
    list[i]
}

/// The age whose file is read for age `a`.
fn pick_age_file(l: &Lists, a: usize) -> (r: &'static str)
    requires
        lists_ok(*l),
        a < 5,
    ensures
        r@ == age_file(a as int),
{
    if a == 0 {
        pick(&l.ages, 1)
    } else {
        pick(&l.ages, a)
    }
}

proof fn lemma_lengths(l: Lists)
    requires
        lists_ok(l),
    ensures
        l.races@.len() == 3,
        l.genders@.len() == 2,
        l.ages@.len() == 5,
        l.muscles@.len() == 3,
        l.weights@.len() == 3,
        l.heights@.len() == 2,
        l.proportions@.len() == 2,
        l.cupsizes@.len() == 3,
        l.firmnesses@.len() == 3,
{
    assert(crate::names::str_views(l.races@).len() == 3);
    assert(crate::names::str_views(l.genders@).len() == 2);
    assert(crate::names::str_views(l.ages@).len() == 5);
    assert(crate::names::str_views(l.muscles@).len() == 3);
    assert(crate::names::str_views(l.weights@).len() == 3);
    assert(crate::names::str_views(l.heights@).len() == 2);
    assert(crate::names::str_views(l.proportions@).len() == 2);
    assert(crate::names::str_views(l.cupsizes@).len() == 3);
    assert(crate::names::str_views(l.firmnesses@).len() == 3);
}

fn universal_target(l: &Lists, i: usize) -> (r: PlannedTarget)
    requires
        lists_ok(*l),
        i < 90,
    ensures
        is_planned(r, universal_entry(i as int)),
{
    proof {
        lemma_lengths(*l);
    }
    let g = pick(&l.genders, i / 45);
    let a: usize = (i / 9) % 5;
    let m = pick(&l.muscles, (i / 3) % 3);
    let w = pick(&l.weights, i % 3);
    let parts: Vec<&str> = vec!["universal", g, pick_age_file(l, a), m, w];
    let gates: Vec<&str> = vec![g, pick(&l.ages, a), m, w];
    proof {
        assert(crate::names::str_views(parts@) =~= seq![
            "universal"@,
            g@,
            age_file(a as int),
            m@,
            w@,
        ]);
        assert(crate::names::str_views(gates@) =~= universal_entry(i as int).gates);
    }
    planned("mpfb2/targets/macrodetails/", parts, gates, a == 0, false)
}

fn race_target(l: &Lists, i: usize) -> (r: PlannedTarget)
    requires
        lists_ok(*l),
        i < 30,
    ensures
        is_planned(r, race_entry(i as int)),
{
    proof {
        lemma_lengths(*l);
    }
    let race = pick(&l.races, i / 10);
    let g = pick(&l.genders, (i / 5) % 2);
    let a: usize = i % 5;
    let parts: Vec<&str> = vec![race, g, pick_age_file(l, a)];
    let gates: Vec<&str> = vec![race, g, pick(&l.ages, a)];
    proof {
        assert(crate::names::str_views(parts@) =~= seq![race@, g@, age_file(a as int)]);
        assert(crate::names::str_views(gates@) =~= race_entry(i as int).gates);
    }
    planned("mpfb2/targets/macrodetails/", parts, gates, a == 0, false)
}

fn height_target(l: &Lists, i: usize) -> (r: PlannedTarget)
    requires
        lists_ok(*l),
        i < 180,
    ensures
        is_planned(r, height_entry(i as int)),
{
    proof {
        lemma_lengths(*l);
    }
    let g = pick(&l.genders, i / 90);
    let a: usize = (i / 18) % 5;
    let m = pick(&l.muscles, (i / 6) % 3);
    let w = pick(&l.weights, (i / 2) % 3);
    let h = pick(&l.heights, i % 2);
    let parts: Vec<&str> = vec![g, pick_age_file(l, a), m, w, h];
    let gates: Vec<&str> = vec![g, pick(&l.ages, a), m, w, h];
    proof {
        assert(crate::names::str_views(parts@) =~= seq![g@, age_file(a as int), m@, w@, h@]);
        assert(crate::names::str_views(gates@) =~= height_entry(i as int).gates);
    }
    planned("mpfb2/targets/macrodetails/height/", parts, gates, a == 0, false)
}

fn proportions_target(l: &Lists, i: usize) -> (r: PlannedTarget)
    requires
        lists_ok(*l),
        i < 108,
    ensures
        is_planned(r, proportions_entry(i as int)),
{
    proof {
        lemma_lengths(*l);
    }
    let g = pick(&l.genders, i / 54);
    let a = pick(&l.ages, 2 + (i / 18) % 3);
    let m = pick(&l.muscles, (i / 6) % 3);
    let w = pick(&l.weights, (i / 2) % 3);
    let p = pick(&l.proportions, i % 2);
    let parts: Vec<&str> = vec![g, a, m, w, p];
    let gates: Vec<&str> = vec![g, a, m, w, p];
    proof {
        assert(crate::names::str_views(parts@) =~= proportions_entry(i as int).gates);
        assert(crate::names::str_views(gates@) =~= proportions_entry(i as int).gates);
    }
    planned("mpfb2/targets/macrodetails/proportions/", parts, gates, false, false)
}

fn breast_target(l: &Lists, i: usize) -> (r: PlannedTarget)
    requires
        lists_ok(*l),
        i < 243,
    ensures
        is_planned(r, breast_entry(i as int)),
{
    proof {
        lemma_lengths(*l);
    }
    let g = pick(&l.genders, 1);
    let a = pick(&l.ages, 2 + i / 81);
    let m = pick(&l.muscles, (i / 27) % 3);
    let w = pick(&l.weights, (i / 9) % 3);
    let c = pick(&l.cupsizes, (i / 3) % 3);
    let f = pick(&l.firmnesses, i % 3);
    let parts: Vec<&str> = vec![g, a, m, w, c, f];
    let gates: Vec<&str> = vec![g, a, m, w, c, f];
    proof {
        assert(crate::names::str_views(parts@) =~= breast_entry(i as int).gates);
        assert(crate::names::str_views(gates@) =~= breast_entry(i as int).gates);
    }
    planned("mpfb2/targets/breast/", parts, gates, false, true)
}

/// All macrodetail targets, in stacking order.
pub fn macrodetail_targets() -> (r: Vec<PlannedTarget>)
    ensures
        r@.len() == target_entries().len(),
        forall|i: int| 0 <= i < r@.len() ==> is_planned(#[trigger] r@[i], target_entries()[i]),
{
    let l = lists();
    let mut r: Vec<PlannedTarget> = Vec::new();
    for i in 0..90
        invariant
            lists_ok(l),
            r@.len() == i,
            forall|j: int| 0 <= j < r@.len() ==> is_planned(#[trigger] r@[j], target_entries()[j]),
    {
        r.push(universal_target(&l, i));
    }
    for i in 0..30
        invariant
            lists_ok(l),
            r@.len() == 90 + i,
            forall|j: int| 0 <= j < r@.len() ==> is_planned(#[trigger] r@[j], target_entries()[j]),
    {
        r.push(race_target(&l, i));
    }
    for i in 0..180
        invariant
            lists_ok(l),
            r@.len() == 120 + i,
            forall|j: int| 0 <= j < r@.len() ==> is_planned(#[trigger] r@[j], target_entries()[j]),
    {
        r.push(height_target(&l, i));
    }
    for i in 0..108
        invariant
            lists_ok(l),
            r@.len() == 300 + i,
            forall|j: int| 0 <= j < r@.len() ==> is_planned(#[trigger] r@[j], target_entries()[j]),
    {
        r.push(proportions_target(&l, i));
    }
    for i in 0..243
        invariant
            lists_ok(l),
            r@.len() == 408 + i,
            forall|j: int| 0 <= j < r@.len() ==> is_planned(#[trigger] r@[j], target_entries()[j]),
    {
        r.push(breast_target(&l, i));
    }
    r
}

/// There are 408 targets whose file has to be there, followed by 243 whose
/// file may be missing, and only these are optional.
pub proof fn law_target_counts()
    ensures
        target_entries().len() == 651,
        forall|i: int|
            0 <= i < target_entries().len() ==> ((#[trigger] target_entries()[i]).optional <==> i
                >= 408),
{
}

/// Of all columns only the sixth is that of newborns.
proof fn lemma_newborn_column(v: int)
    requires
        0 <= v < crate::phenotype::variation_labels().len(),
    ensures
        crate::phenotype::variation_labels()[v] == crate::phenotype::ages()[0] <==> v == 5,
{
    crate::phenotype::law_variations_distinct();
    let all = crate::phenotype::variation_labels();
    assert(all[5] == crate::phenotype::ages()[0]);
    if v != 5 {
        assert(all[v] != all[5]);
    }
}

proof fn lemma_newborn_universal(i: int)
    requires
        0 <= i < 90,
    ensures
        universal_entry(i).newborn <==> universal_entry(i).gates.contains(
            crate::phenotype::ages()[0],
        ),
{
    let gates = universal_entry(i).gates;
    let a = (i / 9) % 5;
    assert(0 <= i / 45 < 2);
    lemma_newborn_column(3 + i / 45);
    lemma_newborn_column(5 + a);
    lemma_newborn_column(10 + (i / 3) % 3);
    lemma_newborn_column(13 + i % 3);
    assert(gates[1] == crate::phenotype::variation_labels()[5 + a]);
}

proof fn lemma_newborn_race(i: int)
    requires
        0 <= i < 30,
    ensures
        race_entry(i).newborn <==> race_entry(i).gates.contains(crate::phenotype::ages()[0]),
{
    let gates = race_entry(i).gates;
    assert(0 <= i / 10 < 3);
    lemma_newborn_column(i / 10);
    lemma_newborn_column(3 + (i / 5) % 2);
    lemma_newborn_column(5 + i % 5);
    assert(gates[2] == crate::phenotype::variation_labels()[5 + i % 5]);
}

proof fn lemma_newborn_height(i: int)
    requires
        0 <= i < 180,
    ensures
        height_entry(i).newborn <==> height_entry(i).gates.contains(crate::phenotype::ages()[0]),
{
    let gates = height_entry(i).gates;
    let a = (i / 18) % 5;
    assert(0 <= i / 90 < 2);
    lemma_newborn_column(3 + i / 90);
    lemma_newborn_column(5 + a);
    lemma_newborn_column(10 + (i / 6) % 3);
    lemma_newborn_column(13 + (i / 2) % 3);
    lemma_newborn_column(16 + i % 2);
    assert(gates[1] == crate::phenotype::variation_labels()[5 + a]);
}

proof fn lemma_newborn_proportions(i: int)
    requires
        0 <= i < 108,
    ensures
        !proportions_entry(i).gates.contains(crate::phenotype::ages()[0]),
{
    let gates = proportions_entry(i).gates;
    assert(0 <= i / 54 < 2);
    lemma_newborn_column(3 + i / 54);
    lemma_newborn_column(7 + (i / 18) % 3);
    lemma_newborn_column(10 + (i / 6) % 3);
    lemma_newborn_column(13 + (i / 2) % 3);
    lemma_newborn_column(18 + i % 2);
    assert(gates[1] == crate::phenotype::variation_labels()[7 + (i / 18) % 3]);
}

proof fn lemma_newborn_breast(i: int)
    requires
        0 <= i < 243,
    ensures
        !breast_entry(i).gates.contains(crate::phenotype::ages()[0]),
{
    let gates = breast_entry(i).gates;
    assert(0 <= i / 81 < 3);
    lemma_newborn_column(4);
    lemma_newborn_column(7 + i / 81);
    lemma_newborn_column(10 + (i / 27) % 3);
    lemma_newborn_column(13 + (i / 9) % 3);
    lemma_newborn_column(20 + (i / 3) % 3);
    lemma_newborn_column(23 + i % 3);
    assert(gates[1] == crate::phenotype::variation_labels()[7 + i / 81]);
}

/// A target is scaled to a newborn exactly if it is gated by that age.
pub proof fn law_newborn_targets(i: int)
    requires
        0 <= i < target_entries().len(),
    ensures
        target_entries()[i].newborn <==> target_entries()[i].gates.contains(
            crate::phenotype::ages()[0],
        ),
{
    if i < 90 {
        lemma_newborn_universal(i);
    } else if i < 120 {
        lemma_newborn_race(i - 90);
    } else if i < 300 {
        lemma_newborn_height(i - 120);
    } else if i < 408 {
        lemma_newborn_proportions(i - 300);
    } else {
        lemma_newborn_breast(i - 408);
    }
}

// ---------------------------------------------------------------------------
// Local changes
// ---------------------------------------------------------------------------

/// A category of the target catalogue. Where it has opposites, they map
/// `negative-<side>` and `positive-<side>` to the names of targets.
#[derive(Debug, Clone)]
pub struct TargetCategory {
    pub opposites: Option<Vec<(String, String)>>,
}

/// The categories of each group of targets, by the name of the group. No name
/// stands twice.
#[derive(Debug, Clone)]
pub struct TargetGroup {
    pub name: String,
    pub categories: Vec<TargetCategory>,
}

/// A pair of targets that pull in opposite directions.
#[derive(Debug, Clone)]
pub struct LocalChange {
    /// The group whose directory holds the two files.
    pub group: String,
    /// The name of the positive target, which is the label of the change.
    pub positive: String,
    pub negative: String,
}

/// The group, the positive and the negative target of a change.
pub struct ChangeEntry {
    pub group: Seq<char>,
    pub positive: Seq<char>,
    pub negative: Seq<char>,
}

pub open spec fn is_change(c: LocalChange, e: ChangeEntry) -> bool {
    &&& c.group@ == e.group
    &&& c.positive@ == e.positive
    &&& c.negative@ == e.negative
}

pub open spec fn opposite_names(opposites: Seq<(String, String)>) -> Seq<Seq<char>> {
    opposites.map_values(|o: (String, String)| o.0@)
}

/// The target that `key` maps to; none if it is not there or empty.
pub open spec fn opposite(opposites: Seq<(String, String)>, key: Seq<char>) -> Option<Seq<char>> {
    match crate::names::first_at(opposite_names(opposites), key) {
        Some(i) => if opposites[i].1@.len() > 0 {
            Some(opposites[i].1@)
        } else {
            None
        },
        None => None,
    }
}

pub open spec fn sides() -> Seq<Seq<char>> {
    seq!["left"@, "right"@, "unsided"@]
}

/// The change of one side of a category, where both its targets are there.
pub open spec fn side_change(
    group: Seq<char>,
    opposites: Seq<(String, String)>,
    side: Seq<char>,
) -> Seq<ChangeEntry> {
    match (opposite(opposites, "negative-"@ + side), opposite(opposites, "positive-"@ + side)) {
        (Some(negative), Some(positive)) => seq![ChangeEntry { group, positive, negative }],
        _ => Seq::empty(),
    }
}

/// The changes of a category, side by side.
pub open spec fn category_changes(group: Seq<char>, category: TargetCategory) -> Seq<ChangeEntry> {
    match category.opposites {
        None => Seq::empty(),
        Some(o) => side_change(group, o@, sides()[0]) + side_change(group, o@, sides()[1])
            + side_change(group, o@, sides()[2]),
    }
}

/// The changes of the first `n` categories of a group.
pub open spec fn group_changes(group: TargetGroup, n: nat) -> Seq<ChangeEntry>
    decreases n,
{
    if n == 0 {
        Seq::empty()
    } else {
        group_changes(group, (n - 1) as nat) + category_changes(
            group.name@,
            group.categories@[n - 1],
        )
    }
}

/// The changes of the first `n` groups in the given order. The group
/// `genitals` counts only if it is wanted.
pub open spec fn ordered_changes(
    groups: Seq<TargetGroup>,
    order: Seq<usize>,
    genitals: bool,
    n: nat,
) -> Seq<ChangeEntry>
    decreases n,
{
    if n == 0 {
        Seq::empty()
    } else {
        let group = groups[order[n - 1] as int];
        ordered_changes(groups, order, genitals, (n - 1) as nat) + if group.name@ == "genitals"@
            && !genitals {
            Seq::empty()
        } else {
            group_changes(group, group.categories@.len())
        }
    }
}

pub open spec fn group_names(groups: Seq<TargetGroup>) -> Seq<Seq<char>> {
    groups.map_values(|g: TargetGroup| g.name@)
}

/// `r` holds exactly the given changes.
pub open spec fn are_changes(r: Seq<LocalChange>, entries: Seq<ChangeEntry>) -> bool {
    &&& r.len() == entries.len()
    &&& forall|i: int| 0 <= i < r.len() ==> is_change(#[trigger] r[i], entries[i])
}

fn find_opposite(opposites: &Vec<(String, String)>, key: &str) -> (r: Option<usize>)
    ensures
        match r {
            Some(i) => i < opposites@.len() && opposite(opposites@, key@) == Some(
                opposites@[i as int].1@,
            ),
            None => opposite(opposites@, key@) is None,
        },
{
    let ghost all = opposite_names(opposites@);
    let mut i: usize = 0;
    while i < opposites.len()
        invariant
            i <= opposites@.len(),
            all == opposite_names(opposites@),
            forall|j: int| 0 <= j < i ==> all[j] != key@,
        decreases opposites.len() - i,
    {
        assert(all[i as int] == opposites@[i as int].0@);
        if same(opposites[i].0.as_str(), key) {
            proof {
                crate::names::lemma_first_at_is(all, key@, i as int);
            }
            return if opposites[i].1.as_str().is_empty() {
                None
            } else {
                Some(i)
            };
        }
        i = i + 1;
    }
    proof {
        crate::names::lemma_first_at(all, key@);
    }
    None
}

fn push_side(r: &mut Vec<LocalChange>, group: &String, opposites: &Vec<(String, String)>, side: &str,
    Ghost(entries): Ghost<Seq<ChangeEntry>>)
    requires
        are_changes(old(r)@, entries),
    ensures
        are_changes(final(r)@, entries + side_change(group@, opposites@, side@)),
{
    let negative = "negative-".to_owned().concat(side);
    let positive = "positive-".to_owned().concat(side);
    let ghost more = side_change(group@, opposites@, side@);
    match (
        find_opposite(opposites, negative.as_str()),
        find_opposite(opposites, positive.as_str()),
    ) {
        (Some(n), Some(p)) => {
            r.push(
                LocalChange {
                    group: group.clone(),
                    positive: opposites[p].1.clone(),
                    negative: opposites[n].1.clone(),
                },
            );
        },
        _ => {
            assert(entries + more == entries);
        },
    }
}

/// The local changes of a target catalogue, group by group in alphabetical
/// order, the sides of a category in the order left, right, unsided. A side
/// counts if both its targets are named. The group `genitals` is left out
/// unless it is wanted.
pub fn local_changes(groups: &Vec<TargetGroup>, include_genital_morphs: bool) -> (r: Vec<
    LocalChange,
>)
    ensures
        exists|order: Seq<usize>| #[trigger]
            crate::names::is_alphabetical(group_names(groups@), order) && are_changes(
                r@,
                ordered_changes(groups@, order, include_genital_morphs, groups@.len()),
            ),
{
    let mut names: Vec<String> = Vec::new();
    for i in 0..groups.len()
        invariant
            names@.len() == i,
            forall|j: int| 0 <= j < i ==> (#[trigger] names@[j])@ == groups@[j].name@,
    {
        names.push(groups[i].name.clone());
    }
    assert(crate::names::views(names@) =~= group_names(groups@));
    let order = alphabetical(&names);
    let n: usize = order.len();
    let mut r: Vec<LocalChange> = Vec::new();
    for k in 0..n
        invariant
            n == order@.len(),
            n == groups@.len(),
            crate::names::is_alphabetical(group_names(groups@), order@),
            are_changes(
                r@,
                ordered_changes(groups@, order@, include_genital_morphs, k as nat),
            ),
    {
        assert(order@[k as int] < groups@.len());
        let group: &TargetGroup = &groups[order[k]];
        let ghost before = ordered_changes(groups@, order@, include_genital_morphs, k as nat);
        if same(group.name.as_str(), "genitals") && !include_genital_morphs {
            assert(before + Seq::<ChangeEntry>::empty() == before);
        } else {
            let count: usize = group.categories.len();
            assert(before + group_changes(*group, 0) == before);
            for c in 0..count
                invariant
                    count == group.categories@.len(),
                    are_changes(r@, before + group_changes(*group, c as nat)),
            {
                let ghost done = before + group_changes(*group, c as nat);
                let ghost added = category_changes(group.name@, group.categories@[c as int]);
                match &group.categories[c].opposites {
                    None => {
                        assert(done + added == done);
                    },
                    Some(o) => {
                        proof {
                            reveal_sides();
                        }
                        push_side(&mut r, &group.name, o, "left", Ghost(done));
                        let ghost one = done + side_change(group.name@, o@, "left"@);
                        push_side(&mut r, &group.name, o, "right", Ghost(one));
                        let ghost two = one + side_change(group.name@, o@, "right"@);
                        push_side(&mut r, &group.name, o, "unsided", Ghost(two));
                        assert(two + side_change(group.name@, o@, "unsided"@) == done + added);
                    },
                }
                assert(done + added == before + group_changes(*group, (c + 1) as nat));
            }
        }
    }
    r
}

proof fn reveal_sides()
    ensures
        sides()[0] == "left"@,
        sides()[1] == "right"@,
        sides()[2] == "unsided"@,
{
}

/// Without `genitals` among the wanted, no change of that group is listed.
pub proof fn law_genitals_excluded(groups: Seq<TargetGroup>, order: Seq<usize>, n: nat)
    ensures
        forall|i: int|
            0 <= i < ordered_changes(groups, order, false, n).len() ==> (
            #[trigger] ordered_changes(groups, order, false, n)[i]).group != "genitals"@,
    decreases n,
{
    if n > 0 {
        law_genitals_excluded(groups, order, (n - 1) as nat);
        let group = groups[order[n - 1] as int];
        lemma_group_name(group, group.categories@.len());
        let before = ordered_changes(groups, order, false, (n - 1) as nat);
        let now = ordered_changes(groups, order, false, n);
        assert forall|i: int| 0 <= i < now.len() implies (#[trigger] now[i]).group
            != "genitals"@ by {
            if i < before.len() {
                assert(now[i] == before[i]);
            } else {
                assert(now[i] == group_changes(group, group.categories@.len())[i - before.len()]);
            }
        }
    }
}

proof fn lemma_group_name(group: TargetGroup, n: nat)
    ensures
        forall|i: int|
            0 <= i < group_changes(group, n).len() ==> (#[trigger] group_changes(
                group,
                n,
            )[i]).group == group.name@,
    decreases n,
{
    if n > 0 {
        lemma_group_name(group, (n - 1) as nat);
        let before = group_changes(group, (n - 1) as nat);
        let added = category_changes(group.name@, group.categories@[n - 1]);
        let now = group_changes(group, n);
        assert forall|i: int| 0 <= i < now.len() implies (#[trigger] now[i]).group
            == group.name@ by {
            if i < before.len() {
                assert(now[i] == before[i]);
            } else {
                assert(now[i] == added[i - before.len()]);
            }
        }
    }
}

} // verus!
