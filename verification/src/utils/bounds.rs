//! Values kept between two bounds.
use crate::scalar::{Arithmetic, Bounds};
use vstd::prelude::*;

verus! {

/// `r` is `low` where `x` is below it, `high` where `x` is above that, and
/// else `x`.
pub open spec fn is_clamped<T, O: Bounds<T>>(ops: &O, x: T, low: T, high: T, r: T) -> bool {
    ||| crate::scalar::says_less(ops, x, low, true) && r == low
    ||| crate::scalar::says_less(ops, x, low, false) && crate::scalar::says_less(ops, high, x, true) && r == high
    ||| crate::scalar::says_less(ops, x, low, false) && crate::scalar::says_less(ops, high, x, false) && r == x
}

/// The value nearest to `x` that is neither below `low` nor above `high`.
pub fn clamp<T: Copy, O: Bounds<T>>(x: T, low: T, high: T, ops: &O) -> (r: T)
    ensures
        is_clamped(ops, x, low, high, r),
{
    if ops.less(x, low) {
        low
    } else if ops.less(high, x) {
        high
    } else {
        x
    }
}

/// A clamped value is within the bounds, and a value within the bounds stays
/// as it is.
pub proof fn law_clamped<T, O: Bounds<T>>(
    ops: &O,
    x: T,
    low: T,
    high: T,
    r: T,
    value: spec_fn(T) -> real,
)
    requires
        crate::scalar::compares(ops, value),
        value(low) <= value(high),
        is_clamped(ops, x, low, high, r),
    ensures
        value(low) <= value(r) <= value(high),
        value(low) <= value(x) <= value(high) ==> r == x,
        value(x) < value(low) ==> r == low,
        value(high) < value(x) ==> r == high,
{
}

/// `r` is `x` moved by `d`, where the way is at most `most` and `r` between
/// `low` and `high`.
pub open spec fn is_damped_step<T, O: Arithmetic<T> + Bounds<T>>(
    ops: &O,
    x: T,
    d: T,
    most: T,
    low: T,
    high: T,
    r: T,
) -> bool {
    exists|least: T, way: T, sum: T|
        {
            &&& #[trigger] crate::scalar::negative_of(ops, most, least)
            &&& is_clamped(ops, d, least, most, way)
            &&& #[trigger] crate::scalar::sum_of(ops, x, way, sum)
            &&& is_clamped(ops, sum, low, high, r)
        }
}

/// The value `x` moved by `d`: by no more than `most` either way, and not out
/// of `low` to `high`.
pub fn damped_step<T: Copy, O: Arithmetic<T> + Bounds<T>>(
    x: T,
    d: T,
    most: T,
    low: T,
    high: T,
    ops: &O,
) -> (r: T)
    ensures
        is_damped_step(ops, x, d, most, low, high, r),
{
    let least = ops.negative(most);
    let way = clamp(d, least, most, ops);
    let sum = ops.plus(x, way);
    assert(crate::scalar::negative_of(ops, most, least));
    assert(crate::scalar::sum_of(ops, x, way, sum));
    clamp(sum, low, high, ops)
}

/// A bounded step ends within the bounds, and from within the bounds it is no
/// longer than `most`.
pub proof fn law_damped_step<T, O: Arithmetic<T> + Bounds<T>>(
    ops: &O,
    x: T,
    d: T,
    most: T,
    low: T,
    high: T,
    r: T,
    value: spec_fn(T) -> real,
)
    requires
        crate::scalar::is_exact(ops, value),
        crate::scalar::compares(ops, value),
        0 as real <= value(most),
        value(low) <= value(high),
        is_damped_step(ops, x, d, most, low, high, r),
    ensures
        value(low) <= value(r) <= value(high),
        value(low) <= value(x) <= value(high) ==> value(x) - value(most) <= value(r) <= value(x)
            + value(most),
{
    let (least, way, sum) = choose|least: T, way: T, sum: T|
        {
            &&& #[trigger] crate::scalar::negative_of(ops, most, least)
            &&& is_clamped(ops, d, least, most, way)
            &&& #[trigger] crate::scalar::sum_of(ops, x, way, sum)
            &&& is_clamped(ops, sum, low, high, r)
        };
    law_clamped(ops, d, least, most, way, value);
    law_clamped(ops, sum, low, high, r, value);
}

} // verus!
