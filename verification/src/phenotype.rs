//! Phenotypes: the named variations of each feature, and the coefficients of
//! the blend shapes that they select.
pub mod row_laws;
pub mod rows;

pub use rows::{blendshape_coefficients, phenotype_rows, CoefficientError, PhenotypeAnchors};

use vstd::prelude::*;
use vstd::string::*;

use crate::names::same;
use crate::scalar::Arithmetic;

verus! {

// ---------------------------------------------------------------------------
// Taxonomy
// ---------------------------------------------------------------------------

/// The number of variations over all features.
pub const PHENOTYPE_VARIATION_COUNT: usize = 26;

pub open spec fn races() -> Seq<Seq<char>> {
    seq!["african"@, "asian"@, "caucasian"@]
}

pub open spec fn genders() -> Seq<Seq<char>> {
    seq!["male"@, "female"@]
}

pub open spec fn ages() -> Seq<Seq<char>> {
    seq!["newborn"@, "baby"@, "child"@, "young"@, "old"@]
}

pub open spec fn muscles() -> Seq<Seq<char>> {
    seq!["minmuscle"@, "averagemuscle"@, "maxmuscle"@]
}

pub open spec fn weights() -> Seq<Seq<char>> {
    seq!["minweight"@, "averageweight"@, "maxweight"@]
}

pub open spec fn heights() -> Seq<Seq<char>> {
    seq!["minheight"@, "maxheight"@]
}

pub open spec fn proportions() -> Seq<Seq<char>> {
    seq!["idealproportions"@, "uncommonproportions"@]
}

pub open spec fn cupsizes() -> Seq<Seq<char>> {
    seq!["mincup"@, "averagecup"@, "maxcup"@]
}

pub open spec fn firmnesses() -> Seq<Seq<char>> {
    seq!["minfirmness"@, "averagefirmness"@, "maxfirmness"@]
}

/// The variations of the feature with the given name.
pub open spec fn variations_of(key: Seq<char>) -> Option<Seq<Seq<char>>> {
    if key == "race"@ {
        Some(races())
    } else if key == "gender"@ {
        Some(genders())
    } else if key == "age"@ {
        Some(ages())
    } else if key == "muscle"@ {
        Some(muscles())
    } else if key == "weight"@ {
        Some(weights())
    } else if key == "height"@ {
        Some(heights())
    } else if key == "proportions"@ {
        Some(proportions())
    } else if key == "cupsize"@ {
        Some(cupsizes())
    } else if key == "firmness"@ {
        Some(firmnesses())
    } else {
        None
    }
}

/// The variations of all features, in stacking order: one for each column of
/// a coefficient row.
pub open spec fn variation_labels() -> Seq<Seq<char>> {
    races() + genders() + ages() + muscles() + weights() + heights() + proportions() + cupsizes()
        + firmnesses()
}

/// There are as many columns as [`PHENOTYPE_VARIATION_COUNT`] says.
pub proof fn law_variation_count()
    ensures
        variation_labels().len() == PHENOTYPE_VARIATION_COUNT,
{
}

/// The features, in stacking order.
pub open spec fn feature_keys() -> Seq<Seq<char>> {
    seq![
        "race"@,
        "gender"@,
        "age"@,
        "muscle"@,
        "weight"@,
        "height"@,
        "proportions"@,
        "cupsize"@,
        "firmness"@,
    ]
}

/// Each feature has its variations.
pub proof fn law_features()
    ensures
        variations_of("race"@) == Some(races()),
        variations_of("gender"@) == Some(genders()),
        variations_of("age"@) == Some(ages()),
        variations_of("muscle"@) == Some(muscles()),
        variations_of("weight"@) == Some(weights()),
        variations_of("height"@) == Some(heights()),
        variations_of("proportions"@) == Some(proportions()),
        variations_of("cupsize"@) == Some(cupsizes()),
        variations_of("firmness"@) == Some(firmnesses()),
{
    reveal_strlit("race");
    reveal_strlit("gender");
    reveal_strlit("age");
    reveal_strlit("muscle");
    reveal_strlit("weight");
    reveal_strlit("height");
    reveal_strlit("proportions");
    reveal_strlit("cupsize");
    reveal_strlit("firmness");
    assert("race"@.len() == 4);
    assert("gender"@.len() == 6);
    assert("age"@.len() == 3);
    assert("muscle"@.len() == 6);
    assert("weight"@.len() == 6);
    assert("height"@.len() == 6);
    assert("proportions"@.len() == 11);
    assert("cupsize"@.len() == 7);
    assert("firmness"@.len() == 8);
    assert("gender"@[0] != "muscle"@[0]);
    assert("gender"@[0] != "weight"@[0]);
    assert("gender"@[0] != "height"@[0]);
    assert("muscle"@[0] != "weight"@[0]);
    assert("muscle"@[0] != "height"@[0]);
    assert("weight"@[0] != "height"@[0]);
}

/// The names of the features, in stacking order.
pub fn features() -> (r: Vec<&'static str>)
    ensures
        crate::names::str_views(r@) =~= feature_keys(),
{
    vec![
        "race",
        "gender",
        "age",
        "muscle",
        "weight",
        "height",
        "proportions",
        "cupsize",
        "firmness",
    ]
}

/// The variations of a feature.
pub fn variations(key: &str) -> (r: Vec<&'static str>)
    requires
        variations_of(key@) is Some,
    ensures
        crate::names::str_views(r@) =~= variations_of(key@)->0,
{
    if same(key, "race") {
        vec!["african", "asian", "caucasian"]
    } else if same(key, "gender") {
        vec!["male", "female"]
    } else if same(key, "age") {
        vec!["newborn", "baby", "child", "young", "old"]
    } else if same(key, "muscle") {
        vec!["minmuscle", "averagemuscle", "maxmuscle"]
    } else if same(key, "weight") {
        vec!["minweight", "averageweight", "maxweight"]
    } else if same(key, "height") {
        vec!["minheight", "maxheight"]
    } else if same(key, "proportions") {
        vec!["idealproportions", "uncommonproportions"]
    } else if same(key, "cupsize") {
        vec!["mincup", "averagecup", "maxcup"]
    } else {
        vec!["minfirmness", "averagefirmness", "maxfirmness"]
    }
}

/// The labels of the columns, in order.
pub fn variation_columns() -> (r: Vec<&'static str>)
    ensures
        crate::names::str_views(r@) =~= variation_labels(),
{
    vec![
        "african",
        "asian",
        "caucasian",
        "male",
        "female",
        "newborn",
        "baby",
        "child",
        "young",
        "old",
        "minmuscle",
        "averagemuscle",
        "maxmuscle",
        "minweight",
        "averageweight",
        "maxweight",
        "minheight",
        "maxheight",
        "idealproportions",
        "uncommonproportions",
        "mincup",
        "averagecup",
        "maxcup",
        "minfirmness",
        "averagefirmness",
        "maxfirmness",
    ]
}

/// The phenotypes that a model leaves out by default.
pub open spec fn excluded_list() -> Seq<Seq<char>> {
    seq!["cupsize"@, "firmness"@, "african"@, "asian"@, "caucasian"@]
}

/// The phenotypes that a model leaves out by default.
pub fn excluded_phenotypes() -> (r: Vec<&'static str>)
    ensures
        crate::names::str_views(r@) =~= excluded_list(),
{
    vec!["cupsize", "firmness", "african", "asian", "caucasian"]
}

/// The column that a label names.
spec fn column_of(s: Seq<char>) -> int {
    if s == "african"@ {
        0
    } else if s == "asian"@ {
        1
    } else if s == "caucasian"@ {
        2
    } else if s == "male"@ {
        3
    } else if s == "female"@ {
        4
    } else if s == "newborn"@ {
        5
    } else if s == "baby"@ {
        6
    } else if s == "child"@ {
        7
    } else if s == "young"@ {
        8
    } else if s == "old"@ {
        9
    } else if s == "minmuscle"@ {
        10
    } else if s == "averagemuscle"@ {
        11
    } else if s == "maxmuscle"@ {
        12
    } else if s == "minweight"@ {
        13
    } else if s == "averageweight"@ {
        14
    } else if s == "maxweight"@ {
        15
    } else if s == "minheight"@ {
        16
    } else if s == "maxheight"@ {
        17
    } else if s == "idealproportions"@ {
        18
    } else if s == "uncommonproportions"@ {
        19
    } else if s == "mincup"@ {
        20
    } else if s == "averagecup"@ {
        21
    } else if s == "maxcup"@ {
        22
    } else if s == "minfirmness"@ {
        23
    } else if s == "averagefirmness"@ {
        24
    } else if s == "maxfirmness"@ {
        25
    } else {
        -1
    }
}

/// No two variations share a label, so a label names one column.
pub proof fn law_variations_distinct()
    ensures
        variation_labels().no_duplicates(),
{
    reveal_strlit("african");
    reveal_strlit("asian");
    reveal_strlit("caucasian");
    reveal_strlit("male");
    reveal_strlit("female");
    reveal_strlit("newborn");
    reveal_strlit("baby");
    reveal_strlit("child");
    reveal_strlit("young");
    reveal_strlit("old");
    reveal_strlit("minmuscle");
    reveal_strlit("averagemuscle");
    reveal_strlit("maxmuscle");
    reveal_strlit("minweight");
    reveal_strlit("averageweight");
    reveal_strlit("maxweight");
    reveal_strlit("minheight");
    reveal_strlit("maxheight");
    reveal_strlit("idealproportions");
    reveal_strlit("uncommonproportions");
    reveal_strlit("mincup");
    reveal_strlit("averagecup");
    reveal_strlit("maxcup");
    reveal_strlit("minfirmness");
    reveal_strlit("averagefirmness");
    reveal_strlit("maxfirmness");
    assert("african"@[0] != "newborn"@[0]);
    assert("asian"@[0] != "child"@[0]);
    assert("asian"@[0] != "young"@[0]);
    assert("caucasian"@[0] != "minmuscle"@[0]);
    assert("caucasian"@[0] != "maxmuscle"@[0]);
    assert("caucasian"@[0] != "minweight"@[0]);
    assert("caucasian"@[0] != "maxweight"@[0]);
    assert("caucasian"@[0] != "minheight"@[0]);
    assert("caucasian"@[0] != "maxheight"@[0]);
    assert("male"@[0] != "baby"@[0]);
    assert("female"@[0] != "mincup"@[0]);
    assert("female"@[0] != "maxcup"@[0]);
    assert("child"@[0] != "young"@[0]);
    assert("minmuscle"@[1] != "maxmuscle"@[1]);
    assert("minmuscle"@[3] != "minweight"@[3]);
    assert("minmuscle"@[1] != "maxweight"@[1]);
    assert("minmuscle"@[3] != "minheight"@[3]);
    assert("minmuscle"@[1] != "maxheight"@[1]);
    assert("averagemuscle"@[7] != "averageweight"@[7]);
    assert("maxmuscle"@[1] != "minweight"@[1]);
    assert("maxmuscle"@[3] != "maxweight"@[3]);
    assert("maxmuscle"@[1] != "minheight"@[1]);
    assert("maxmuscle"@[3] != "maxheight"@[3]);
    assert("minweight"@[1] != "maxweight"@[1]);
    assert("minweight"@[3] != "minheight"@[3]);
    assert("minweight"@[1] != "maxheight"@[1]);
    assert("maxweight"@[1] != "minheight"@[1]);
    assert("maxweight"@[3] != "maxheight"@[3]);
    assert("minheight"@[1] != "maxheight"@[1]);
    assert("mincup"@[1] != "maxcup"@[1]);
    assert("minfirmness"@[1] != "maxfirmness"@[1]);
    let l = variation_labels();
    assert(l[0] == "african"@ && column_of(l[0]) == 0);
    assert(l[1] == "asian"@ && column_of(l[1]) == 1);
    assert(l[2] == "caucasian"@ && column_of(l[2]) == 2);
    assert(l[3] == "male"@ && column_of(l[3]) == 3);
    assert(l[4] == "female"@ && column_of(l[4]) == 4);
    assert(l[5] == "newborn"@ && column_of(l[5]) == 5);
    assert(l[6] == "baby"@ && column_of(l[6]) == 6);
    assert(l[7] == "child"@ && column_of(l[7]) == 7);
    assert(l[8] == "young"@ && column_of(l[8]) == 8);
    assert(l[9] == "old"@ && column_of(l[9]) == 9);
    assert(l[10] == "minmuscle"@ && column_of(l[10]) == 10);
    assert(l[11] == "averagemuscle"@ && column_of(l[11]) == 11);
    assert(l[12] == "maxmuscle"@ && column_of(l[12]) == 12);
    assert(l[13] == "minweight"@ && column_of(l[13]) == 13);
    assert(l[14] == "averageweight"@ && column_of(l[14]) == 14);
    assert(l[15] == "maxweight"@ && column_of(l[15]) == 15);
    assert(l[16] == "minheight"@ && column_of(l[16]) == 16);
    assert(l[17] == "maxheight"@ && column_of(l[17]) == 17);
    assert(l[18] == "idealproportions"@ && column_of(l[18]) == 18);
    assert(l[19] == "uncommonproportions"@ && column_of(l[19]) == 19);
    assert(l[20] == "mincup"@ && column_of(l[20]) == 20);
    assert(l[21] == "averagecup"@ && column_of(l[21]) == 21);
    assert(l[22] == "maxcup"@ && column_of(l[22]) == 22);
    assert(l[23] == "minfirmness"@ && column_of(l[23]) == 23);
    assert(l[24] == "averagefirmness"@ && column_of(l[24]) == 24);
    assert(l[25] == "maxfirmness"@ && column_of(l[25]) == 25);
    assert forall|i: int| 0 <= i < l.len() implies column_of(#[trigger] l[i]) == i by {}
}

// ---------------------------------------------------------------------------
// Values
// ---------------------------------------------------------------------------

/// A value for each phenotype.
#[derive(Debug, Clone)]
pub struct PhenotypeValues<T> {
    pub age: T,
    pub gender: T,
    pub muscle: T,
    pub weight: T,
    pub height: T,
    pub proportions: T,
    pub cupsize: T,
    pub firmness: T,
    pub african: T,
    pub asian: T,
    pub caucasian: T,
}

impl<T> PhenotypeValues<T> {
    /// The value with the given label.
    pub open spec fn value(self, label: Seq<char>) -> Option<T> {
        if label == "age"@ {
            Some(self.age)
        } else if label == "gender"@ {
            Some(self.gender)
        } else if label == "muscle"@ {
            Some(self.muscle)
        } else if label == "weight"@ {
            Some(self.weight)
        } else if label == "height"@ {
            Some(self.height)
        } else if label == "proportions"@ {
            Some(self.proportions)
        } else if label == "cupsize"@ {
            Some(self.cupsize)
        } else if label == "firmness"@ {
            Some(self.firmness)
        } else if label == "african"@ {
            Some(self.african)
        } else if label == "asian"@ {
            Some(self.asian)
        } else if label == "caucasian"@ {
            Some(self.caucasian)
        } else {
            None
        }
    }

    /// The values with one of them replaced.
    pub open spec fn with(self, label: Seq<char>, value: T) -> Option<Self> {
        if label == "age"@ {
            Some(PhenotypeValues { age: value, ..self })
        } else if label == "gender"@ {
            Some(PhenotypeValues { gender: value, ..self })
        } else if label == "muscle"@ {
            Some(PhenotypeValues { muscle: value, ..self })
        } else if label == "weight"@ {
            Some(PhenotypeValues { weight: value, ..self })
        } else if label == "height"@ {
            Some(PhenotypeValues { height: value, ..self })
        } else if label == "proportions"@ {
            Some(PhenotypeValues { proportions: value, ..self })
        } else if label == "cupsize"@ {
            Some(PhenotypeValues { cupsize: value, ..self })
        } else if label == "firmness"@ {
            Some(PhenotypeValues { firmness: value, ..self })
        } else if label == "african"@ {
            Some(PhenotypeValues { african: value, ..self })
        } else if label == "asian"@ {
            Some(PhenotypeValues { asian: value, ..self })
        } else if label == "caucasian"@ {
            Some(PhenotypeValues { caucasian: value, ..self })
        } else {
            None
        }
    }

    /// The value with the given label; `None` for an unknown label.
    pub fn get(&self, label: &str) -> (r: Option<&T>)
        ensures
            match r {
                Some(v) => self.value(label@) == Some(*v),
                None => self.value(label@) is None,
            },
    {
        if same(label, "age") {
            Some(&self.age)
        } else if same(label, "gender") {
            Some(&self.gender)
        } else if same(label, "muscle") {
            Some(&self.muscle)
        } else if same(label, "weight") {
            Some(&self.weight)
        } else if same(label, "height") {
            Some(&self.height)
        } else if same(label, "proportions") {
            Some(&self.proportions)
        } else if same(label, "cupsize") {
            Some(&self.cupsize)
        } else if same(label, "firmness") {
            Some(&self.firmness)
        } else if same(label, "african") {
            Some(&self.african)
        } else if same(label, "asian") {
            Some(&self.asian)
        } else if same(label, "caucasian") {
            Some(&self.caucasian)
        } else {
            None
        }
    }

    /// Replaces the value with the given label; returns whether the label is
    /// known.
    pub fn set(&mut self, label: &str, value: T) -> (known: bool)
        ensures
            match old(self).with(label@, value) {
                Some(changed) => known && *final(self) == changed,
                None => !known && *final(self) == *old(self),
            },
    {
        if same(label, "age") {
            self.age = value;
        } else if same(label, "gender") {
            self.gender = value;
        } else if same(label, "muscle") {
            self.muscle = value;
        } else if same(label, "weight") {
            self.weight = value;
        } else if same(label, "height") {
            self.height = value;
        } else if same(label, "proportions") {
            self.proportions = value;
        } else if same(label, "cupsize") {
            self.cupsize = value;
        } else if same(label, "firmness") {
            self.firmness = value;
        } else if same(label, "african") {
            self.african = value;
        } else if same(label, "asian") {
            self.asian = value;
        } else if same(label, "caucasian") {
            self.caucasian = value;
        } else {
            return false;
        }
        true
    }
}

// ---------------------------------------------------------------------------
// Batches
// ---------------------------------------------------------------------------

/// A list of values is neither one for all nor one for each element of the
/// batch.
#[derive(Debug, Clone, Copy, PartialEq, Eq, Structural)]
pub struct BatchMismatch {
    pub len: usize,
    pub batch: usize,
}

impl<T: Copy> PhenotypeValues<Vec<T>> {
    /// A phenotype for one body, with every value in the middle.
    pub fn defaults(middle: T) -> (r: Self)
        ensures
            r.age@ == seq![middle],
            r.gender@ == seq![middle],
            r.muscle@ == seq![middle],
            r.weight@ == seq![middle],
            r.height@ == seq![middle],
            r.proportions@ == seq![middle],
            r.cupsize@ == seq![middle],
            r.firmness@ == seq![middle],
            r.african@ == seq![middle],
            r.asian@ == seq![middle],
            r.caucasian@ == seq![middle],
    {
        PhenotypeValues {
            age: vec![middle],
            gender: vec![middle],
            muscle: vec![middle],
            weight: vec![middle],
            height: vec![middle],
            proportions: vec![middle],
            cupsize: vec![middle],
            firmness: vec![middle],
            african: vec![middle],
            asian: vec![middle],
            caucasian: vec![middle],
        }
    }
}


/// `m` is the largest of the lengths, or 1 where there are none.
pub open spec fn is_batch_size(lens: Seq<usize>, m: usize) -> bool {
    if lens.len() == 0 {
        m == 1
    } else {
        &&& lens.contains(m)
        &&& forall|i: int| 0 <= i < lens.len() ==> #[trigger] lens[i] <= m
    }
}

/// The size of the batch that lists of the given lengths make up.
pub fn batch_size(lens: &Vec<usize>) -> (r: usize)
    ensures
        is_batch_size(lens@, r),
{
    if lens.len() == 0 {
        return 1;
    }
    let mut m: usize = lens[0];
    assert(lens@.contains(lens@[0]));
    for i in 0..lens.len()
        invariant
            lens@.len() > 0,
            lens@.contains(m),
            forall|j: int| 0 <= j < i ==> #[trigger] lens@[j] <= m,
    {
        if lens[i] > m {
            m = lens[i];
            assert(lens@.contains(lens@[i as int]));
        }
    }
    m
}

/// The element of a list that belongs to element `b` of the batch.
pub open spec fn element<A>(values: Seq<A>, b: int) -> A {
    if values.len() == 1 {
        values[0]
    } else {
        values[b]
    }
}

/// A value for each element of the batch, from one for all or one for each.
pub fn broadcast<A: Copy>(values: &Vec<A>, batch: usize) -> (r: Result<Vec<A>, BatchMismatch>)
    ensures
        match r {
            Ok(all) => {
                &&& values@.len() == batch || values@.len() == 1
                &&& all@ == Seq::new(batch as nat, |b: int| element(values@, b))
            },
            Err(e) => {
                &&& values@.len() != batch && values@.len() != 1
                &&& e.len == values@.len() && e.batch == batch
            },
        },
{
    let len: usize = values.len();
    if len != batch && len != 1 {
        return Err(BatchMismatch { len, batch });
    }
    let mut all: Vec<A> = Vec::new();
    for b in 0..batch
        invariant
            len == values@.len(),
            len == batch || len == 1,
            all@.len() == b,
            forall|j: int| 0 <= j < b ==> #[trigger] all@[j] == element(values@, j),
    {
        if len == 1 {
            all.push(values[0]);
        } else {
            all.push(values[b]);
        }
    }
    assert(all@ =~= Seq::new(batch as nat, |b: int| element(values@, b)));
    Ok(all)
}

// ---------------------------------------------------------------------------
// Coefficients
// ---------------------------------------------------------------------------

/// `r` is the product of the terms, from the left.
pub open spec fn is_product<T, O: Arithmetic<T>>(ops: &O, terms: Seq<T>, r: T) -> bool
    decreases terms.len(),
{
    if terms.len() <= 1 {
        terms.len() == 1 && r == terms[0]
    } else {
        exists|p: T|
            is_product(ops, terms.drop_last(), p) && #[trigger] crate::scalar::product_of(
                ops,
                p,
                terms.last(),
                r,
            )
    }
}

/// The factors of a blend shape: the coefficient where the mask has its bit,
/// and one elsewhere.
pub open spec fn factors<T>(row: Seq<T>, mask: Seq<bool>, one: T) -> Seq<T> {
    Seq::new(
        row.len(),
        |v: int|
            if mask[v] {
                row[v]
            } else {
                one
            },
    )
}

/// The product of the coefficients whose bit the mask has.
pub fn masked_product<T: Copy, O: Arithmetic<T>>(
    row: &Vec<T>,
    mask: &Vec<bool>,
    one: T,
    ops: &O,
) -> (r: T)
    requires
        row@.len() > 0,
        row@.len() == mask@.len(),
    ensures
        is_product(ops, factors(row@, mask@, one), r),
{
    let ghost terms = factors(row@, mask@, one);
    let mut acc: T = if mask[0] {
        row[0]
    } else {
        one
    };
    proof {
        assert(terms.take(1).len() == 1 && terms.take(1)[0] == acc);
        assert(is_product(ops, terms.take(1), acc));
    }
    let n: usize = row.len();
    for v in 1..n
        invariant
            n == row@.len(),
            row@.len() == mask@.len(),
            terms == factors(row@, mask@, one),
            is_product(ops, terms.take(v as int), acc),
    {
        let factor: T = if mask[v] {
            row[v]
        } else {
            one
        };
        let ghost before = acc;
        acc = ops.times(acc, factor);
        proof {
            let longer = terms.take(v + 1);
            assert(longer.drop_last() == terms.take(v as int));
            assert(longer.last() == factor);
            assert(is_product(ops, longer.drop_last(), before));
            assert(crate::scalar::product_of(ops, before, longer.last(), acc));
        }
    }
    assert(terms.take(n as int) == terms);
    acc
}

/// The coefficients whose bit the mask has.
pub open spec fn selected<T>(row: Seq<T>, mask: Seq<bool>) -> Seq<T>
    decreases row.len(),
{
    if row.len() == 0 {
        Seq::empty()
    } else if mask[row.len() - 1] {
        selected(row.drop_last(), mask).push(row.last())
    } else {
        selected(row.drop_last(), mask)
    }
}

/// The product of the terms under `f`, from the left, starting with `one`.
pub open spec fn product_under<T>(f: spec_fn(T, T) -> T, one: T, terms: Seq<T>) -> T
    decreases terms.len(),
{
    if terms.len() == 0 {
        one
    } else {
        f(product_under(f, one, terms.drop_last()), terms.last())
    }
}

/// Where multiplication is a function with the neutral element `one`, the product
/// over all factors is the product over the coefficients that the mask
/// selects.
pub proof fn law_product_collapses<T, O: Arithmetic<T>>(
    ops: &O,
    f: spec_fn(T, T) -> T,
    one: T,
    row: Seq<T>,
    mask: Seq<bool>,
    r: T,
)
    requires
        row.len() > 0,
        mask.len() == row.len(),
        forall|a: T, b: T, c: T| #[trigger] crate::scalar::product_of(ops, a, b, c) ==> c == f(a, b),
        forall|a: T| #[trigger] f(a, one) == a,
        forall|a: T| #[trigger] f(one, a) == a,
        is_product(ops, factors(row, mask, one), r),
    ensures
        r == product_under(f, one, selected(row, mask)),
{
    assert(row.take(row.len() as int) == row);
    assert(factors(row, mask, one).take(row.len() as int) == factors(row, mask, one));
    lemma_collapse(ops, f, one, row, mask, row.len() as int, r);
}

proof fn lemma_collapse<T, O: Arithmetic<T>>(
    ops: &O,
    f: spec_fn(T, T) -> T,
    one: T,
    row: Seq<T>,
    mask: Seq<bool>,
    n: int,
    r: T,
)
    requires
        0 < n <= row.len(),
        mask.len() == row.len(),
        forall|a: T, b: T, c: T| #[trigger] crate::scalar::product_of(ops, a, b, c) ==> c == f(a, b),
        forall|a: T| #[trigger] f(a, one) == a,
        forall|a: T| #[trigger] f(one, a) == a,
        is_product(ops, factors(row, mask, one).take(n), r),
    ensures
        r == product_under(f, one, selected(row.take(n), mask)),
    decreases n,
{
    let terms = factors(row, mask, one).take(n);
    let front = row.take(n - 1);
    assert(row.take(n).drop_last() == front);
    assert(row.take(n).last() == row[n - 1]);
    assert(selected(front, mask).push(row[n - 1]).drop_last() == selected(front, mask));
    if n == 1 {
        assert(selected(front, mask).len() == 0);
        assert(product_under(f, one, selected(front, mask)) == one);
        assert(f(one, row[0]) == row[0]);
    } else {
        let p = choose|p: T|
            is_product(ops, terms.drop_last(), p) && #[trigger] crate::scalar::product_of(
                ops,
                p,
                terms.last(),
                r,
            );
        assert(terms.drop_last() == factors(row, mask, one).take(n - 1));
        lemma_collapse(ops, f, one, row, mask, n - 1, p);
        assert(f(p, one) == p);
    }
}

/// A mask does not have one bit for each column.
#[derive(Debug, Clone, Copy, PartialEq, Eq, Structural)]
pub struct MaskMismatch {
    pub mask: usize,
    pub columns: usize,
}

/// The rows of each feature.
pub open spec fn row_views<T>(parts: Seq<Vec<Vec<T>>>) -> Seq<Seq<Vec<T>>> {
    Seq::new(parts.len(), |i: int| parts[i]@)
}

/// The columns of element `b` of the batch: those of the first `n` features,
/// one after the other.
pub open spec fn stacked<T>(parts: Seq<Seq<Vec<T>>>, b: int, n: nat) -> Seq<T>
    decreases n,
{
    if n == 0 {
        Seq::empty()
    } else {
        stacked(parts, b, (n - 1) as nat) + element(parts[n - 1], b)@
    }
}

/// Feature `i` has neither one row for all nor one for each element of the
/// batch.
pub open spec fn part_misfits<T>(parts: Seq<Vec<Vec<T>>>, batch: int, i: int) -> bool {
    parts[i]@.len() != batch && parts[i]@.len() != 1
}

/// The rows of coefficients of a batch: for each element the columns of all
/// features, in order.
pub fn stack_features<T: Copy>(parts: &Vec<Vec<Vec<T>>>, batch: usize) -> (r: Result<
    Vec<Vec<T>>,
    BatchMismatch,
>)
    ensures
        match r {
            Ok(rows) => {
                &&& forall|i: int|
                    0 <= i < parts@.len() ==> !#[trigger] part_misfits(parts@, batch as int, i)
                &&& rows@.len() == batch
                &&& forall|b: int|
                    0 <= b < batch ==> (#[trigger] rows@[b])@ == stacked(
                        row_views(parts@),
                        b,
                        parts@.len(),
                    )
            },
            Err(e) => exists|i: int|
                {
                    &&& 0 <= i < parts@.len()
                    &&& #[trigger] part_misfits(parts@, batch as int, i)
                    &&& forall|j: int|
                        0 <= j < i ==> !#[trigger] part_misfits(parts@, batch as int, j)
                    &&& e.len == parts@[i]@.len()
                    &&& e.batch == batch
                },
        },
{
    let n: usize = parts.len();
    for i in 0..n
        invariant
            n == parts@.len(),
            forall|j: int| 0 <= j < i ==> !#[trigger] part_misfits(parts@, batch as int, j),
    {
        let len: usize = parts[i].len();
        if len != batch && len != 1 {
            assert(part_misfits(parts@, batch as int, i as int));
            return Err(BatchMismatch { len, batch });
        }
    }
    let mut rows: Vec<Vec<T>> = Vec::new();
    for b in 0..batch
        invariant
            n == parts@.len(),
            forall|j: int| 0 <= j < n ==> !#[trigger] part_misfits(parts@, batch as int, j),
            rows@.len() == b,
            forall|c: int|
                0 <= c < b ==> (#[trigger] rows@[c])@ == stacked(row_views(parts@), c, n as nat),
    {
        let mut row: Vec<T> = Vec::new();
        for i in 0..n
            invariant
                n == parts@.len(),
                b < batch,
                forall|j: int| 0 <= j < n ==> !#[trigger] part_misfits(parts@, batch as int, j),
                row@ == stacked(row_views(parts@), b as int, i as nat),
        {
            assert(!part_misfits(parts@, batch as int, i as int));
            let at: usize = if parts[i].len() == 1 {
                0
            } else {
                b
            };
            let part: &Vec<T> = &parts[i][at];
            let ghost before = row@;
            assert(part@ == element(parts@[i as int]@, b as int)@);
            for k in 0..part.len()
                invariant
                    row@ == before + part@.take(k as int),
            {
                row.push(part[k]);
                assert(part@.take(k + 1) == part@.take(k as int).push(part@[k as int]));
            }
            assert(part@.take(part@.len() as int) == part@);
        }
        rows.push(row);
    }
    Ok(rows)
}

/// Mask `c` does not have one bit for each column.
pub open spec fn mask_misfits(masks: Seq<Vec<bool>>, columns: int, c: int) -> bool {
    masks[c]@.len() != columns
}

/// Mask `c` is the first that does not have one bit for each column.
pub open spec fn first_misfit(masks: Seq<Vec<bool>>, columns: int, c: int) -> bool {
    &&& 0 <= c < masks.len()
    &&& mask_misfits(masks, columns, c)
    &&& forall|d: int| 0 <= d < c ==> !#[trigger] mask_misfits(masks, columns, d)
}

/// The coefficient of every blend shape for every element of the batch: the
/// product of the coefficients of the variations that its mask selects.
pub fn coefficients_of_rows<T: Copy, O: Arithmetic<T>>(
    rows: &Vec<Vec<T>>,
    masks: &Vec<Vec<bool>>,
    columns: usize,
    one: T,
    ops: &O,
) -> (r: Result<Vec<Vec<T>>, MaskMismatch>)
    requires
        forall|b: int| 0 <= b < rows@.len() ==> (#[trigger] rows@[b])@.len() == columns,
        columns > 0,
    ensures
        match r {
            Ok(coefficients) => {
                &&& forall|c: int|
                    0 <= c < masks@.len() ==> !#[trigger] mask_misfits(masks@, columns as int, c)
                &&& coefficients@.len() == rows@.len()
                &&& forall|b: int|
                    0 <= b < rows@.len() ==> (#[trigger] coefficients@[b])@.len() == masks@.len()
                &&& forall|b: int, c: int|
                    0 <= b < rows@.len() && 0 <= c < masks@.len() ==> is_product(
                        ops,
                        factors(rows@[b]@, masks@[c]@, one),
                        #[trigger] coefficients@[b]@[c],
                    )
            },
            Err(e) => {
                &&& e.columns == columns
                &&& exists|c: int| #[trigger]
                    first_misfit(masks@, columns as int, c) && e.mask == masks@[c]@.len()
            },
        },
{
    let batch: usize = rows.len();
    let shapes: usize = masks.len();
    for c in 0..shapes
        invariant
            shapes == masks@.len(),
            forall|d: int| 0 <= d < c ==> !#[trigger] mask_misfits(masks@, columns as int, d),
    {
        let mask: usize = masks[c].len();
        if mask != columns {
            assert(first_misfit(masks@, columns as int, c as int));
            return Err(MaskMismatch { mask, columns });
        }
    }
    let mut coefficients: Vec<Vec<T>> = Vec::new();
    for b in 0..batch
        invariant
            batch == rows@.len(),
            shapes == masks@.len(),
            forall|b: int| 0 <= b < rows@.len() ==> (#[trigger] rows@[b])@.len() == columns,
            columns > 0,
            forall|c: int|
                0 <= c < masks@.len() ==> !#[trigger] mask_misfits(masks@, columns as int, c),
            coefficients@.len() == b,
            forall|d: int|
                0 <= d < b ==> (#[trigger] coefficients@[d])@.len() == masks@.len(),
            forall|d: int, c: int|
                0 <= d < b && 0 <= c < masks@.len() ==> is_product(
                    ops,
                    factors(rows@[d]@, masks@[c]@, one),
                    #[trigger] coefficients@[d]@[c],
                ),
    {
        assert(rows@[b as int]@.len() == columns);
        let mut line: Vec<T> = Vec::new();
        for c in 0..shapes
            invariant
                b < rows@.len(),
                shapes == masks@.len(),
                rows@[b as int]@.len() == columns,
                columns > 0,
                forall|c: int|
                    0 <= c < masks@.len() ==> !#[trigger] mask_misfits(masks@, columns as int, c),
                line@.len() == c,
                forall|d: int|
                    0 <= d < c ==> is_product(
                        ops,
                        factors(rows@[b as int]@, masks@[d]@, one),
                        #[trigger] line@[d],
                    ),
        {
            assert(!mask_misfits(masks@, columns as int, c as int));
            line.push(masked_product(&rows[b], &masks[c], one, ops));
        }
        coefficients.push(line);
    }
    Ok(coefficients)
}

} // verus!
