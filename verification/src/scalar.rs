//! The operations on scalars that the library computes with. Nothing is taken
//! for granted of what they return: contracts relate results to the calls.
use vstd::prelude::*;

verus! {

pub trait Arithmetic<T> {
    fn plus(&self, a: T, b: T) -> T;

    fn minus(&self, a: T, b: T) -> T;

    fn times(&self, a: T, b: T) -> T;

    fn negative(&self, a: T) -> T;
}

pub open spec fn sum_of<T, O: Arithmetic<T>>(ops: &O, a: T, b: T, r: T) -> bool {
    call_ensures(O::plus, (ops, a, b), r)
}

pub open spec fn difference_of<T, O: Arithmetic<T>>(ops: &O, a: T, b: T, r: T) -> bool {
    call_ensures(O::minus, (ops, a, b), r)
}

pub open spec fn product_of<T, O: Arithmetic<T>>(ops: &O, a: T, b: T, r: T) -> bool {
    call_ensures(O::times, (ops, a, b), r)
}

pub open spec fn negative_of<T, O: Arithmetic<T>>(ops: &O, a: T, r: T) -> bool {
    call_ensures(O::negative, (ops, a), r)
}

pub trait Division<T>: Arithmetic<T> {
    fn quotient(&self, a: T, b: T) -> T;

    /// Whether a quotient is no number, as that of nothing by nothing.
    fn undefined(&self, a: T) -> bool;
}

pub open spec fn quotient_of<T, O: Division<T>>(ops: &O, a: T, b: T, r: T) -> bool {
    call_ensures(O::quotient, (ops, a, b), r)
}

pub open spec fn says_undefined<T, O: Division<T>>(ops: &O, a: T, r: bool) -> bool {
    call_ensures(O::undefined, (ops, a), r)
}

pub trait Bounds<T> {
    fn less(&self, a: T, b: T) -> bool;
}

pub open spec fn says_less<T, O: Bounds<T>>(ops: &O, a: T, b: T, r: bool) -> bool {
    call_ensures(O::less, (ops, a, b), r)
}

pub trait Signs<T> {
    /// Whether a number is more than zero.
    fn positive(&self, a: T) -> bool;
}

pub open spec fn says_positive<T, O: Signs<T>>(ops: &O, a: T, r: bool) -> bool {
    call_ensures(O::positive, (ops, a), r)
}

pub trait Lengths<T>: Arithmetic<T> {
    fn length(&self, v: &[T; 3]) -> T;
}

pub open spec fn length_of<T, O: Lengths<T>>(ops: &O, v: [T; 3], r: T) -> bool {
    call_ensures(O::length, (ops, &v), r)
}

/// The arithmetic is exact in the numbers that `value` stands for.
pub open spec fn is_exact<T, O: Arithmetic<T>>(ops: &O, value: spec_fn(T) -> real) -> bool {
    &&& forall|a: T, b: T, r: T| #[trigger]
        sum_of(ops, a, b, r) ==> value(r) == value(a) + value(b)
    &&& forall|a: T, b: T, r: T| #[trigger]
        difference_of(ops, a, b, r) ==> value(r) == value(a) - value(b)
    &&& forall|a: T, b: T, r: T| #[trigger]
        product_of(ops, a, b, r) ==> value(r) == value(a) * value(b)
    &&& forall|a: T, r: T| #[trigger] negative_of(ops, a, r) ==> value(r) == -value(a)
}

/// Division is exact.
pub open spec fn divides_exactly<T, O: Division<T>>(ops: &O, value: spec_fn(T) -> real) -> bool {
    forall|a: T, b: T, r: T| #[trigger]
        quotient_of(ops, a, b, r) && value(b) != 0 as real ==> value(r) == value(a) / value(b)
}

/// The comparison is that of the numbers that `value` stands for.
pub open spec fn compares<T, O: Bounds<T>>(ops: &O, value: spec_fn(T) -> real) -> bool {
    forall|a: T, b: T, r: bool| #[trigger]
        says_less(ops, a, b, r) ==> r == (value(a) < value(b))
}

/// The test of the sign is that of the numbers that `value` stands for.
pub open spec fn tells_signs<T, O: Signs<T>>(ops: &O, value: spec_fn(T) -> real) -> bool {
    forall|a: T, r: bool| #[trigger] says_positive(ops, a, r) ==> r == (value(a) > 0 as real)
}

} // verus!
