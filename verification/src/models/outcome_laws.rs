//! Where operations are functions, the rest poses of a body are a function of
//! its coefficients.
use vstd::prelude::*;

use crate::kinematics::bone_poses::{BoneSteps, EndpointOps};
use crate::rotation::{AngleOps, SignedProduct, TurnSteps};
use crate::scalar::Arithmetic;

verus! {

/// Every operation of arithmetic gives one result.
pub open spec fn computes_one<T, O: Arithmetic<T>>(ops: &O) -> bool {
    &&& forall|a: T, b: T, r: T, s: T| #[trigger]
        crate::scalar::sum_of(ops, a, b, r) && #[trigger] crate::scalar::sum_of(ops, a, b, s) ==> r
            == s
    &&& forall|a: T, b: T, r: T, s: T| #[trigger]
        crate::scalar::difference_of(ops, a, b, r) && #[trigger] crate::scalar::difference_of(
            ops,
            a,
            b,
            s,
        ) ==> r == s
    &&& forall|a: T, b: T, r: T, s: T| #[trigger]
        crate::scalar::product_of(ops, a, b, r) && #[trigger] crate::scalar::product_of(
            ops,
            a,
            b,
            s,
        ) ==> r == s
    &&& forall|a: T, r: T, s: T| #[trigger]
        crate::scalar::negative_of(ops, a, r) && #[trigger] crate::scalar::negative_of(ops, a, s)
            ==> r == s
}

/// Every operation on angles gives one result.
pub open spec fn turns_one<T, O: AngleOps<T>>(ops: &O) -> bool {
    &&& computes_one(ops)
    &&& forall|a: T, b: T, r: T, s: T| #[trigger]
        crate::scalar::quotient_of(ops, a, b, r) && #[trigger] crate::scalar::quotient_of(
            ops,
            a,
            b,
            s,
        ) ==> r == s
    &&& forall|v: [T; 3], r: T, s: T| #[trigger]
        crate::scalar::length_of(ops, v, r) && #[trigger] crate::scalar::length_of(ops, v, s) ==> r
            == s
    &&& forall|a: T, r: T, s: T| #[trigger]
        call_ensures(O::not_zero, (ops, a), r) && #[trigger] call_ensures(
            O::not_zero,
            (ops, a),
            s,
        ) ==> r == s
    &&& forall|a: T, r: T, s: T| #[trigger]
        call_ensures(O::cosine, (ops, a), r) && #[trigger] call_ensures(O::cosine, (ops, a), s)
            ==> r == s
    &&& forall|a: T, r: T, s: T| #[trigger]
        call_ensures(O::sine, (ops, a), r) && #[trigger] call_ensures(O::sine, (ops, a), s) ==> r
            == s
}

/// Every operation on the ends of bones gives one result.
pub open spec fn poses_one<T, O: EndpointOps<T>>(ops: &O) -> bool {
    &&& turns_one(ops)
    &&& forall|a: T, b: T, r: T, s: T| #[trigger]
        call_ensures(O::arc, (ops, a, b), r) && #[trigger] call_ensures(O::arc, (ops, a, b), s)
            ==> r == s
    &&& forall|a: T, r: bool, s: bool| #[trigger]
        call_ensures(O::near_one, (ops, a), r) && #[trigger] call_ensures(
            O::near_one,
            (ops, a),
            s,
        ) ==> r == s
    &&& forall|a: T, r: bool, s: bool| #[trigger]
        crate::scalar::says_positive(ops, a, r) && #[trigger] crate::scalar::says_positive(
            ops,
            a,
            s,
        ) ==> r == s
}

proof fn lemma_one_blend<T, O: Arithmetic<T>>(
    ops: &O,
    zero: T,
    terms: Seq<(T, T)>,
    r: T,
    s: T,
)
    requires
        computes_one(ops),
        crate::utils::blend::is_blend(ops, zero, terms, r),
        crate::utils::blend::is_blend(ops, zero, terms, s),
    ensures
        r == s,
    decreases terms.len(),
{
    if terms.len() > 0 {
        let (w, x) = terms.last();
        let p = choose|p: T|
            crate::utils::blend::is_blend(ops, zero, terms.drop_last(), p)
                && #[trigger] crate::utils::blend::is_accumulated(ops, p, w, x, r);
        let q = choose|p: T|
            crate::utils::blend::is_blend(ops, zero, terms.drop_last(), p)
                && #[trigger] crate::utils::blend::is_accumulated(ops, p, w, x, s);
        lemma_one_blend(ops, zero, terms.drop_last(), p, q);
    }
}

/// A point that coefficients shape is one point.
proof fn lemma_one_shaped<T, O: Arithmetic<T>>(
    ops: &O,
    zero: T,
    template: Seq<[T; 3]>,
    shapes: Seq<Vec<[T; 3]>>,
    coefficients: Seq<T>,
    i: int,
    c: int,
    r: T,
    s: T,
)
    requires
        computes_one(ops),
        crate::skinning::is_shaped(ops, zero, template, shapes, coefficients, i, c, r),
        crate::skinning::is_shaped(ops, zero, template, shapes, coefficients, i, c, s),
    ensures
        r == s,
{
    let terms = crate::skinning::shape_terms(coefficients, shapes, i, c);
    let f = choose|mixed: T| #[trigger]
        crate::scalar::sum_of(ops, template[i]@[c], mixed, r) && crate::utils::blend::is_blend(
            ops,
            zero,
            terms,
            mixed,
        );
    let g = choose|mixed: T| #[trigger]
        crate::scalar::sum_of(ops, template[i]@[c], mixed, s) && crate::utils::blend::is_blend(
            ops,
            zero,
            terms,
            mixed,
        );
    lemma_one_blend(ops, zero, terms, f, g);
}

/// Where operations are functions, coefficients shape one list of points.
pub proof fn law_one_shape<T, O: Arithmetic<T>>(
    ops: &O,
    zero: T,
    template: Seq<[T; 3]>,
    shapes: Seq<Vec<[T; 3]>>,
    coefficients: Seq<Vec<T>>,
    x: Seq<Vec<[T; 3]>>,
    y: Seq<Vec<[T; 3]>>,
    b: int,
)
    requires
        computes_one(ops),
        crate::models::forward::are_shaped(ops, zero, template, shapes, coefficients, x),
        crate::models::forward::are_shaped(ops, zero, template, shapes, coefficients, y),
        0 <= b < coefficients.len(),
    ensures
        x[b]@ == y[b]@,
{
    assert(x[b]@.len() == template.len() && y[b]@.len() == template.len());
    assert forall|i: int| 0 <= i < template.len() implies x[b]@[i] == y[b]@[i] by {
        let p = x[b]@[i];
        let q = y[b]@[i];
        assert forall|c: int| 0 <= c < 3 implies p@[c] == q@[c] by {
            assert(crate::skinning::is_shaped(
                ops,
                zero,
                template,
                shapes,
                coefficients[b]@,
                i,
                c,
                x[b]@[i]@[c],
            ));
            assert(crate::skinning::is_shaped(
                ops,
                zero,
                template,
                shapes,
                coefficients[b]@,
                i,
                c,
                y[b]@[i]@[c],
            ));
            lemma_one_shaped(
                ops,
                zero,
                template,
                shapes,
                coefficients[b]@,
                i,
                c,
                x[b]@[i]@[c],
                y[b]@[i]@[c],
            );
        }
        assert(p@ =~= q@);
        assert(p =~= q);
    }
    assert(x[b]@ =~= y[b]@);
}

proof fn lemma_one_sum<T, O: Arithmetic<T>>(
    ops: &O,
    terms: Seq<SignedProduct<T>>,
    r: T,
    s: T,
)
    requires
        computes_one(ops),
        crate::rotation::is_signed_sum(ops, terms, r),
        crate::rotation::is_signed_sum(ops, terms, s),
    ensures
        r == s,
    decreases terms.len(),
{
    if terms.len() > 1 {
        let p = choose|before: T|
            crate::rotation::is_signed_sum(ops, terms.drop_last(), before)
                && #[trigger] crate::rotation::is_step(ops, before, terms.last(), r);
        let q = choose|before: T|
            crate::rotation::is_signed_sum(ops, terms.drop_last(), before)
                && #[trigger] crate::rotation::is_step(ops, before, terms.last(), s);
        lemma_one_sum(ops, terms.drop_last(), p, q);
    }
}

proof fn lemma_one_matrix<T, O: Arithmetic<T>>(
    ops: &O,
    a: Seq<Seq<T>>,
    b: Seq<Seq<T>>,
    r: [[T; 3]; 3],
    s: [[T; 3]; 3],
)
    requires
        computes_one(ops),
        crate::rotation::is_matrix_product(ops, a, b, crate::rotation::rows3(r)),
        crate::rotation::is_matrix_product(ops, a, b, crate::rotation::rows3(s)),
    ensures
        crate::rotation::rows3(r) == crate::rotation::rows3(s),
{
    let (f, g) = (crate::rotation::rows3(r), crate::rotation::rows3(s));
    assert forall|i: int| 0 <= i < 3 implies f[i] == g[i] by {
        assert forall|j: int| 0 <= j < 3 implies f[i][j] == g[i][j] by {
            assert(crate::rotation::is_inner(ops, a[i], crate::rotation::column(b, j), f[i][j]));
            assert(crate::rotation::is_inner(ops, a[i], crate::rotation::column(b, j), g[i][j]));
            lemma_one_sum(
                ops,
                crate::rotation::inner_terms(a[i], crate::rotation::column(b, j)),
                f[i][j],
                g[i][j],
            );
        }
        assert(f[i] =~= g[i]);
    }
    assert(f =~= g);
}

/// Two lists of three that hold the same are one.
proof fn lemma_one_triple<T>(a: [T; 3], b: [T; 3])
    requires
        a@[0] == b@[0],
        a@[1] == b@[1],
        a@[2] == b@[2],
    ensures
        a == b,
{
    assert forall|i: int| 0 <= i < 3 implies a[i] == b[i] by {
        assert(i == 0 || i == 1 || i == 2);
        assert(a@[i] == b@[i]);
    }
    assert(a =~= b);
}

proof fn lemma_one_entry<T, O: Arithmetic<T>>(
    ops: &O,
    cosine: T,
    sine: T,
    rest: T,
    eye: T,
    cross: T,
    a: T,
    b: T,
    r: T,
    s: T,
)
    requires
        computes_one(ops),
        crate::rotation::is_turn_entry(ops, cosine, sine, rest, eye, cross, a, b, r),
        crate::rotation::is_turn_entry(ops, cosine, sine, rest, eye, cross, a, b, s),
    ensures
        r == s,
{
}

proof fn lemma_one_turn<T, O: Arithmetic<T>>(
    ops: &O,
    k: Seq<T>,
    cosine: T,
    sine: T,
    zero: T,
    one: T,
    r: [[T; 3]; 3],
    s: [[T; 3]; 3],
)
    requires
        computes_one(ops),
        crate::rotation::is_turn(ops, k, cosine, sine, zero, one, crate::rotation::rows3(r)),
        crate::rotation::is_turn(ops, k, cosine, sine, zero, one, crate::rotation::rows3(s)),
    ensures
        crate::rotation::rows3(r) == crate::rotation::rows3(s),
{
    let (f, g) = (crate::rotation::rows3(r), crate::rotation::rows3(s));
    let (m, x) = choose|n: Seq<T>, rest: T|
        {
            &&& n.len() == 3
            &&& crate::scalar::negative_of(ops, k[0], #[trigger] n[0])
            &&& crate::scalar::negative_of(ops, k[1], n[1])
            &&& crate::scalar::negative_of(ops, k[2], n[2])
            &&& #[trigger] crate::scalar::difference_of(ops, one, cosine, rest)
            &&& forall|i: int, j: int|
                0 <= i < 3 && 0 <= j < 3 ==> crate::rotation::is_turn_entry(
                    ops,
                    cosine,
                    sine,
                    rest,
                    if i == j {
                        one
                    } else {
                        zero
                    },
                    crate::rotation::cross_matrix(k, n, zero)[i][j],
                    k[i],
                    k[j],
                    #[trigger] f[i][j],
                )
        };
    let (n, y) = choose|n: Seq<T>, rest: T|
        {
            &&& n.len() == 3
            &&& crate::scalar::negative_of(ops, k[0], #[trigger] n[0])
            &&& crate::scalar::negative_of(ops, k[1], n[1])
            &&& crate::scalar::negative_of(ops, k[2], n[2])
            &&& #[trigger] crate::scalar::difference_of(ops, one, cosine, rest)
            &&& forall|i: int, j: int|
                0 <= i < 3 && 0 <= j < 3 ==> crate::rotation::is_turn_entry(
                    ops,
                    cosine,
                    sine,
                    rest,
                    if i == j {
                        one
                    } else {
                        zero
                    },
                    crate::rotation::cross_matrix(k, n, zero)[i][j],
                    k[i],
                    k[j],
                    #[trigger] g[i][j],
                )
        };
    assert(x == y);
    assert(m =~= n) by {
        assert forall|i: int| 0 <= i < 3 implies m[i] == n[i] by {
            assert(i == 0 || i == 1 || i == 2);
        }
    }
    assert forall|i: int| 0 <= i < 3 implies f[i] == g[i] by {
        assert forall|j: int| 0 <= j < 3 implies f[i][j] == g[i][j] by {
            let eye = if i == j {
                one
            } else {
                zero
            };
            lemma_one_entry(
                ops,
                cosine,
                sine,
                x,
                eye,
                crate::rotation::cross_matrix(k, m, zero)[i][j],
                k[i],
                k[j],
                f[i][j],
                g[i][j],
            );
        }
        assert(f[i] =~= g[i]);
    }
    assert(f =~= g);
}

proof fn lemma_one_rotation<T, O: AngleOps<T>>(
    ops: &O,
    v: [T; 3],
    zero: T,
    one: T,
    r: [[T; 3]; 3],
    s: [[T; 3]; 3],
)
    requires
        turns_one(ops),
        crate::rotation::is_rotation_of(ops, v, zero, one, crate::rotation::rows3(r)),
        crate::rotation::is_rotation_of(ops, v, zero, one, crate::rotation::rows3(s)),
    ensures
        crate::rotation::rows3(r) == crate::rotation::rows3(s),
{
    let f = choose|f: TurnSteps<T>| #[trigger]
        crate::rotation::are_turn_steps(ops, v, zero, one, f, crate::rotation::rows3(r));
    let g = choose|g: TurnSteps<T>| #[trigger]
        crate::rotation::are_turn_steps(ops, v, zero, one, g, crate::rotation::rows3(s));
    assert(f.angle == g.angle);
    assert(f.divisor == g.divisor);
    lemma_one_triple(f.axis, g.axis);
    lemma_one_turn(ops, f.axis@, f.cosine, f.sine, zero, one, r, s);
}

/// The pose of a bone is one pose.
proof fn lemma_one_bone<T, O: EndpointOps<T>>(
    ops: &O,
    head: [T; 3],
    tail: [T; 3],
    roll: [[T; 3]; 3],
    y_axis: [T; 3],
    fallback: [[T; 3]; 3],
    zero: T,
    one: T,
    f: BoneSteps<T>,
    g: BoneSteps<T>,
)
    requires
        poses_one(ops),
        crate::kinematics::bone_poses::are_bone_steps(
            ops,
            head,
            tail,
            roll,
            y_axis,
            fallback,
            zero,
            one,
            f,
        ),
        crate::kinematics::bone_poses::are_bone_steps(
            ops,
            head,
            tail,
            roll,
            y_axis,
            fallback,
            zero,
            one,
            g,
        ),
    ensures
        crate::rotation::rows3(f.rotation) == crate::rotation::rows3(g.rotation),
{
    lemma_one_triple(f.along, g.along);
    assert(f.length == g.length);
    lemma_one_triple(f.unit, g.unit);
    let (a, b) = (f.unit@, y_axis@);
    lemma_one_sum(
        ops,
        seq![crate::rotation::added(a[1], b[2]), crate::rotation::taken(a[2], b[1])],
        f.cross@[0],
        g.cross@[0],
    );
    lemma_one_sum(
        ops,
        seq![crate::rotation::added(a[2], b[0]), crate::rotation::taken(a[0], b[2])],
        f.cross@[1],
        g.cross@[1],
    );
    lemma_one_sum(
        ops,
        seq![crate::rotation::added(a[0], b[1]), crate::rotation::taken(a[1], b[0])],
        f.cross@[2],
        g.cross@[2],
    );
    lemma_one_triple(f.cross, g.cross);
    lemma_one_sum(ops, crate::rotation::inner_terms(a, b), f.cosine, g.cosine);
    assert(f.sine == g.sine);
    assert(f.angle == g.angle);
    assert(f.divisor == g.divisor);
    lemma_one_triple(f.axis, g.axis);
    lemma_one_turned(ops, f.axis@[0], f.angle, f.rotvec@[0], g.rotvec@[0]);
    lemma_one_turned(ops, f.axis@[1], f.angle, f.rotvec@[1], g.rotvec@[1]);
    lemma_one_turned(ops, f.axis@[2], f.angle, f.rotvec@[2], g.rotvec@[2]);
    lemma_one_triple(f.rotvec, g.rotvec);
    lemma_one_sum(ops, crate::rotation::inner_terms(f.axis@, f.axis@), f.square, g.square);
    if call_ensures(O::near_one, (ops, f.square), true) {
        lemma_one_rotation(ops, f.rotvec, zero, one, f.turn, g.turn);
    }
    assert(crate::rotation::rows3(f.turn) =~~= crate::rotation::rows3(g.turn));
    lemma_one_matrix(
        ops,
        crate::rotation::rows3(f.turn),
        crate::rotation::rows3(roll),
        f.rotation,
        g.rotation,
    );
}

proof fn lemma_one_turned<T, O: Arithmetic<T>>(ops: &O, a: T, t: T, r: T, s: T)
    requires
        computes_one(ops),
        crate::kinematics::bone_poses::is_turned_coordinate(ops, a, t, r),
        crate::kinematics::bone_poses::is_turned_coordinate(ops, a, t, s),
    ensures
        r == s,
{
}

/// Two homogeneous matrices that hold the same are one.
pub proof fn lemma_one_array<T>(a: [[T; 4]; 4], b: [[T; 4]; 4])
    requires
        crate::rotation::rows4(a) =~~= crate::rotation::rows4(b),
    ensures
        a == b,
{
    let (f, g) = (crate::rotation::rows4(a), crate::rotation::rows4(b));
    assert(f == g);
    assert forall|i: int| 0 <= i < 4 implies a[i] == b[i] by {
        assert(i == 0 || i == 1 || i == 2 || i == 3);
        assert(f[i] == a@[i]@ && g[i] == b@[i]@);
        assert forall|j: int| 0 <= j < 4 implies a@[i][j] == b@[i][j] by {
            assert(a@[i]@[j] == b@[i]@[j]);
        }
        assert(a@[i] =~= b@[i]);
    }
    assert(a =~= b);
}

/// Where operations are functions, bones with the same ends have the same rest
/// poses.
pub proof fn law_one_rest<T, O: EndpointOps<T>>(
    ops: &O,
    zero: T,
    one: T,
    rolls: Seq<[[T; 3]; 3]>,
    heads: Seq<[T; 3]>,
    tails: Seq<[T; 3]>,
    x: Seq<[[T; 4]; 4]>,
    y: Seq<[[T; 4]; 4]>,
)
    requires
        poses_one(ops),
        crate::models::forward::are_rest_poses(ops, zero, one, rolls, heads, tails, x),
        crate::models::forward::are_rest_poses(ops, zero, one, rolls, heads, tails, y),
    ensures
        x == y,
{
    let (a, m) = choose|axis: [T; 3], over: [[T; 3]; 3]|
        {
            &&& #[trigger] crate::models::forward::own_axis(zero, one, axis)
            &&& #[trigger] crate::models::forward::is_turned_over(ops, zero, one, over)
            &&& x.len() == heads.len()
            &&& forall|i: int|
                0 <= i < x.len() ==> crate::kinematics::bone_poses::is_bone_pose(
                    ops,
                    heads[i],
                    tails[i],
                    rolls[i],
                    axis,
                    over,
                    zero,
                    one,
                    crate::rotation::rows4(#[trigger] x[i]),
                )
        };
    let (b, n) = choose|axis: [T; 3], over: [[T; 3]; 3]|
        {
            &&& #[trigger] crate::models::forward::own_axis(zero, one, axis)
            &&& #[trigger] crate::models::forward::is_turned_over(ops, zero, one, over)
            &&& y.len() == heads.len()
            &&& forall|i: int|
                0 <= i < y.len() ==> crate::kinematics::bone_poses::is_bone_pose(
                    ops,
                    heads[i],
                    tails[i],
                    rolls[i],
                    axis,
                    over,
                    zero,
                    one,
                    crate::rotation::rows4(#[trigger] y[i]),
                )
        };
    lemma_one_triple(a, b);
    assert(m == n) by {
        let u = choose|u: T| #[trigger]
            crate::scalar::negative_of(ops, one, u) && crate::rotation::rows3(m) =~~= seq![
                seq![one, zero, zero],
                seq![zero, u, zero],
                seq![zero, zero, u],
            ];
        let v = choose|v: T| #[trigger]
            crate::scalar::negative_of(ops, one, v) && crate::rotation::rows3(n) =~~= seq![
                seq![one, zero, zero],
                seq![zero, v, zero],
                seq![zero, zero, v],
            ];
        assert(u == v);
        assert(crate::rotation::rows3(m) == crate::rotation::rows3(n));
        assert forall|i: int| 0 <= i < 3 implies m[i] == n[i] by {
            assert(i == 0 || i == 1 || i == 2);
            assert(crate::rotation::rows3(m)[i] == m@[i]@);
            assert(crate::rotation::rows3(n)[i] == n@[i]@);
            lemma_one_triple(m@[i], n@[i]);
        }
        assert(m =~= n);
    }
    assert forall|i: int| 0 <= i < x.len() implies x[i] == y[i] by {
        let f = choose|f: BoneSteps<T>| #[trigger]
            crate::kinematics::bone_poses::are_bone_steps(
                ops,
                heads[i],
                tails[i],
                rolls[i],
                a,
                m,
                zero,
                one,
                f,
            ) && crate::rotation::rows4(x[i]) =~~= crate::rotation::homogeneous(
                crate::rotation::rows3(f.rotation),
                heads[i]@,
                zero,
                one,
            );
        assert(crate::kinematics::bone_poses::is_bone_pose(
            ops,
            heads[i],
            tails[i],
            rolls[i],
            a,
            m,
            zero,
            one,
            crate::rotation::rows4(y[i]),
        ));
        let g = choose|g: BoneSteps<T>| #[trigger]
            crate::kinematics::bone_poses::are_bone_steps(
                ops,
                heads[i],
                tails[i],
                rolls[i],
                a,
                m,
                zero,
                one,
                g,
            ) && crate::rotation::rows4(y[i]) =~~= crate::rotation::homogeneous(
                crate::rotation::rows3(g.rotation),
                heads[i]@,
                zero,
                one,
            );
        lemma_one_bone(ops, heads[i], tails[i], rolls[i], a, m, zero, one, f, g);
        lemma_one_array(x[i], y[i]);
    }
    assert(x =~= y);
}

} // verus!
