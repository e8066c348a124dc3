//! What the arithmetic operators give, element by element.
//!
//! Of every element type these relations say that each result is one that
//! the type's operator gives for the two operands. For types on which the
//! operator obeys its spec function they also say which value that is.
use core::ops::Add;
use core::ops::Div;
use core::ops::Mul;
use core::ops::Sub;
use vstd::prelude::*;
use vstd::std_specs::ops::AddSpec;
use vstd::std_specs::ops::DivSpec;
use vstd::std_specs::ops::MulSpec;
use vstd::std_specs::ops::SubSpec;

verus! {

/// `c` is a result of `a + b`.
pub open spec fn added<T: Add<Output = T>>(a: T, b: T, c: T) -> bool {
    call_ensures(<T as Add>::add, (a, b), c)
}

/// `c` is a result of `a - b`.
pub open spec fn subtracted<T: Sub<Output = T>>(a: T, b: T, c: T) -> bool {
    call_ensures(<T as Sub>::sub, (a, b), c)
}

/// `c` is a result of `a * b`.
pub open spec fn multiplied<T: Mul<Output = T>>(a: T, b: T, c: T) -> bool {
    call_ensures(<T as Mul>::mul, (a, b), c)
}

/// `c` is a result of `a / b`.
pub open spec fn divided<T: Div<Output = T>>(a: T, b: T, c: T) -> bool {
    call_ensures(<T as Div>::div, (a, b), c)
}

/// `output` holds, position by position, the sum of the elements of
/// `left` and `right`.
pub open spec fn sums<T: Add<Output = T>>(left: Seq<T>, right: Seq<T>, output: Seq<T>) -> bool {
    &&& output.len() == left.len()
    &&& forall|i: int| 0 <= i < left.len() ==> added(left[i], right[i], #[trigger] output[i])
    &&& T::obeys_add_spec() ==> forall|i: int|
        0 <= i < left.len() ==> #[trigger] output[i] == left[i].add_spec(right[i])
}

/// `output` holds, position by position, the difference of the elements of
/// `left` and `right`.
pub open spec fn differences<T: Sub<Output = T>>(
    left: Seq<T>,
    right: Seq<T>,
    output: Seq<T>,
) -> bool {
    &&& output.len() == left.len()
    &&& forall|i: int| 0 <= i < left.len() ==> subtracted(left[i], right[i], #[trigger] output[i])
    &&& T::obeys_sub_spec() ==> forall|i: int|
        0 <= i < left.len() ==> #[trigger] output[i] == left[i].sub_spec(right[i])
}

/// `output` holds, position by position, the product of the elements of
/// `left` and `right`.
pub open spec fn products<T: Mul<Output = T>>(left: Seq<T>, right: Seq<T>, output: Seq<T>) -> bool {
    &&& output.len() == left.len()
    &&& forall|i: int| 0 <= i < left.len() ==> multiplied(left[i], right[i], #[trigger] output[i])
    &&& T::obeys_mul_spec() ==> forall|i: int|
        0 <= i < left.len() ==> #[trigger] output[i] == left[i].mul_spec(right[i])
}

/// `output` holds, position by position, the quotient of the elements of
/// `left` and `right`.
pub open spec fn quotients<T: Div<Output = T>>(
    left: Seq<T>,
    right: Seq<T>,
    output: Seq<T>,
) -> bool {
    &&& output.len() == left.len()
    &&& forall|i: int| 0 <= i < left.len() ==> divided(left[i], right[i], #[trigger] output[i])
    &&& T::obeys_div_spec() ==> forall|i: int|
        0 <= i < left.len() ==> #[trigger] output[i] == left[i].div_spec(right[i])
}

/// `scalar`, as often as `like` has elements.
pub open spec fn repeated<T>(scalar: T, like: Seq<T>) -> Seq<T> {
    Seq::new(like.len(), |i: int| scalar)
}

} // verus!
