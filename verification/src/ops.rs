//! The catalogue of element-by-element operations that need no more of
//! the element type than its arithmetic and its comparisons.
//!
//! A question about an element is answered with the neutral element of
//! `*` for "yes" and with the neutral element of `+` for "no": one and
//! zero. An element counts as true where it is above zero.
use crate::arithmetic::{
    added, differences, divided, multiplied, products, quotients, repeated, subtracted, sums,
};
use crate::array::ArrayND;
use crate::error::ArrayError;
use crate::order::{
    above, above_or_equal, alike, at_least, at_most, below, below_or_equal, clamped, equal, equates,
    greater, held, less, ordered, unequal,
};
use crate::reduce::{additive_identity, multiplicative_identity, one_of, zero_of};
use core::ops::Add;
use core::ops::Div;
use core::ops::Mul;
use core::ops::Sub;
use num_traits::One;
use num_traits::Zero;
use vstd::prelude::*;
use vstd::std_specs::ops::AddSpec;
use vstd::std_specs::ops::DivSpec;
use vstd::std_specs::ops::MulSpec;
use vstd::std_specs::ops::SubSpec;

verus! {

/// `after` is a well-formed array of the shape of `before`.
pub open spec fn reframed<T: PartialOrd>(before: ArrayND<T>, after: ArrayND<T>) -> bool {
    &&& after.wf()
    &&& after.dims() == before.dims()
    &&& after.elements().len() == before.elements().len()
}

/// `one` and `zero` are the answers of a test: the neutral elements of `*`
/// and of `+`.
pub open spec fn answers<T: Add<Output = T> + Mul<Output = T>>(one: T, zero: T) -> bool {
    multiplicative_identity(one) && additive_identity(zero)
}

/// `value` is `one` where `answer` is yes, and `zero` where it is no.
pub open spec fn picked<T>(answer: bool, one: T, zero: T, value: T) -> bool {
    value == (if answer {
        one
    } else {
        zero
    })
}

/// `value` is `one` or `zero`, as one of the answers that `verdict`
/// admits for `given` says.
pub open spec fn judged_one<T>(
    given: T,
    verdict: spec_fn(T, bool) -> bool,
    one: T,
    zero: T,
    value: T,
) -> bool {
    exists|answer: bool| verdict(given, answer) && #[trigger] picked(answer, one, zero, value)
}

/// `value` is `one` or `zero`, as one of the answers that `verdict`
/// admits for `first` and `second` says.
pub open spec fn judged_pair<T>(
    first: T,
    second: T,
    verdict: spec_fn(T, T, bool) -> bool,
    one: T,
    zero: T,
    value: T,
) -> bool {
    exists|answer: bool|
        verdict(first, second, answer) && #[trigger] picked(answer, one, zero, value)
}

/// `output` holds at every position `one` or `zero`, as one of the
/// answers that `verdict` admits for the element of `input` at that
/// position says.
pub open spec fn judged<T>(
    input: Seq<T>,
    verdict: spec_fn(T, bool) -> bool,
    one: T,
    zero: T,
    output: Seq<T>,
) -> bool {
    &&& output.len() == input.len()
    &&& forall|i: int|
        0 <= i < input.len() ==> judged_one(input[i], verdict, one, zero, #[trigger] output[i])
}

/// `output` holds at every position `one` or `zero`, as one of the
/// answers that `verdict` admits for the elements of `left` and `right`
/// at that position says.
pub open spec fn judged_pairs<T>(
    left: Seq<T>,
    right: Seq<T>,
    verdict: spec_fn(T, T, bool) -> bool,
    one: T,
    zero: T,
    output: Seq<T>,
) -> bool {
    &&& output.len() == left.len()
    &&& forall|i: int|
        0 <= i < left.len() ==> judged_pair(
            left[i],
            right[i],
            verdict,
            one,
            zero,
            #[trigger] output[i],
        )
}

/// `output` holds `one` where `test` holds of the element of `input` at
/// that position, and `zero` where it does not.
pub open spec fn marked<T>(
    input: Seq<T>,
    test: spec_fn(T) -> bool,
    one: T,
    zero: T,
    output: Seq<T>,
) -> bool {
    &&& output.len() == input.len()
    &&& forall|i: int|
        0 <= i < input.len() ==> picked(test(input[i]), one, zero, #[trigger] output[i])
}

/// `output` holds `one` where `test` holds of the elements of `left` and
/// `right` at that position, and `zero` where it does not.
pub open spec fn marked_pairs<T>(
    left: Seq<T>,
    right: Seq<T>,
    test: spec_fn(T, T) -> bool,
    one: T,
    zero: T,
    output: Seq<T>,
) -> bool {
    &&& output.len() == left.len()
    &&& forall|i: int|
        0 <= i < left.len() ==> picked(test(left[i], right[i]), one, zero, #[trigger] output[i])
}

/// `output` answers a test for every element of `input`, with the neutral
/// element of `*` for yes and that of `+` for no. The answers are some
/// that `verdict` admits, which says what the comparisons of the element
/// type gave; and where those comparisons are `known` to obey their spec
/// function, the answer is yes exactly where `test` holds.
pub open spec fn tested<T: Add<Output = T> + Mul<Output = T>>(
    input: Seq<T>,
    verdict: spec_fn(T, bool) -> bool,
    test: spec_fn(T) -> bool,
    known: bool,
    output: Seq<T>,
) -> bool {
    exists|one: T, zero: T| #[trigger]
        answers(one, zero) && judged(input, verdict, one, zero, output) && (known ==> marked(
            input,
            test,
            one,
            zero,
            output,
        ))
}

/// `a` and `b` count as true or not, as `first` and `second` say: an
/// element counts as true where `element > zero` answers yes.
pub open spec fn truths<T: PartialOrd>(a: T, b: T, zero: T, first: bool, second: bool) -> bool {
    above(a, zero, first) && above(b, zero, second)
}

/// `answer` is an answer to "are `a` and `b` both true?".
pub open spec fn both<T: PartialOrd>(a: T, b: T, zero: T, answer: bool) -> bool {
    exists|first: bool, second: bool| #[trigger]
        truths(a, b, zero, first, second) && answer == (first && second)
}

/// `answer` is an answer to "is `a` true, or `b`, or are both?".
pub open spec fn either<T: PartialOrd>(a: T, b: T, zero: T, answer: bool) -> bool {
    exists|first: bool, second: bool| #[trigger]
        truths(a, b, zero, first, second) && answer == (first || second)
}

/// `answer` is an answer to "is exactly one of `a` and `b` true?".
pub open spec fn exactly_one<T: PartialOrd>(a: T, b: T, zero: T, answer: bool) -> bool {
    exists|first: bool, second: bool| #[trigger]
        truths(a, b, zero, first, second) && answer == (first != second)
}

/// What a binary operation gives for operands of different shapes: a
/// `ShapeMismatchError`, and an array exactly where the shapes agree.
pub open spec fn matched<T: PartialOrd>(
    left: ArrayND<T>,
    right: ArrayND<T>,
    outcome: Result<ArrayND<T>, ArrayError>,
) -> bool {
    &&& left.dims() != right.dims() ==> outcome == Err::<ArrayND<T>, ArrayError>(
        ArrayError::ShapeMismatchError,
    )
    &&& left.dims() == right.dims() ==> outcome is Ok && reframed(left, outcome->Ok_0)
}

impl<T: Copy + PartialOrd + Add<Output = T>> ArrayND<T> {
    /// The array of the sums of each element and `num`.
    pub fn add(&self, num: T) -> (array: ArrayND<T>)
        requires
            self.wf(),
            forall|i: int|
                0 <= i < self.elements().len() ==> (#[trigger] self.elements()[i]).add_req(num),
        ensures
            reframed(*self, array),
            sums(self.elements(), repeated(num, self.elements()), array.elements()),
    {
        let plus = |x: T| -> (y: T)
            requires
                x.add_req(num),
            ensures
                T::obeys_add_spec() ==> y == x.add_spec(num),
                added(x, num, y),
            { x + num };
        self.apply_clone(plus)
    }
}

impl<T: Copy + PartialOrd + Sub<Output = T>> ArrayND<T> {
    /// The array of the differences of each element and `num`.
    pub fn sub(&self, num: T) -> (array: ArrayND<T>)
        requires
            self.wf(),
            forall|i: int|
                0 <= i < self.elements().len() ==> (#[trigger] self.elements()[i]).sub_req(num),
        ensures
            reframed(*self, array),
            differences(self.elements(), repeated(num, self.elements()), array.elements()),
    {
        let minus = |x: T| -> (y: T)
            requires
                x.sub_req(num),
            ensures
                T::obeys_sub_spec() ==> y == x.sub_spec(num),
                subtracted(x, num, y),
            { x - num };
        self.apply_clone(minus)
    }
}

impl<T: Copy + PartialOrd + Mul<Output = T>> ArrayND<T> {
    /// The array of the products of each element and `num`.
    pub fn mul(&self, num: T) -> (array: ArrayND<T>)
        requires
            self.wf(),
            forall|i: int|
                0 <= i < self.elements().len() ==> (#[trigger] self.elements()[i]).mul_req(num),
        ensures
            reframed(*self, array),
            products(self.elements(), repeated(num, self.elements()), array.elements()),
    {
        let times = |x: T| -> (y: T)
            requires
                x.mul_req(num),
            ensures
                T::obeys_mul_spec() ==> y == x.mul_spec(num),
                multiplied(x, num, y),
            { x * num };
        self.apply_clone(times)
    }

    /// The array of the products of the elements of the two arrays at the
    /// same position. This is no inner product: the result has the shape
    /// of the operands.
    ///
    /// Fails with `ShapeMismatchError` where the shapes differ.
    pub fn dot(&self, other: ArrayND<T>) -> (outcome: Result<ArrayND<T>, ArrayError>)
        requires
            self.wf(),
            other.wf(),
            self.dims() == other.dims() ==> forall|i: int|
                0 <= i < self.elements().len() ==> (#[trigger] self.elements()[i]).mul_req(
                    other.elements()[i],
                ),
        ensures
            matched(*self, other, outcome),
            outcome is Ok ==> products(
                self.elements(),
                other.elements(),
                outcome->Ok_0.elements(),
            ),
    {
        let times = |a: T, b: T| -> (c: T)
            requires
                a.mul_req(b),
            ensures
                T::obeys_mul_spec() ==> c == a.mul_spec(b),
                multiplied(a, b, c),
            { a * b };
        proof {
            if self.dims() == other.dims() {
                self.lemma_count_is_product();
                other.lemma_count_is_product();
            }
        }
        self.apply_elementwise_with_other_array(other, times)
    }

    /// The array of the products of the elements of the two arrays at the
    /// same position, as [`ArrayND::dot`] gives it. This is no vector
    /// product.
    ///
    /// Fails with `ShapeMismatchError` where the shapes differ.
    pub fn cross(&self, other: ArrayND<T>) -> (outcome: Result<ArrayND<T>, ArrayError>)
        requires
            self.wf(),
            other.wf(),
            self.dims() == other.dims() ==> forall|i: int|
                0 <= i < self.elements().len() ==> (#[trigger] self.elements()[i]).mul_req(
                    other.elements()[i],
                ),
        ensures
            matched(*self, other, outcome),
            outcome is Ok ==> products(
                self.elements(),
                other.elements(),
                outcome->Ok_0.elements(),
            ),
    {
        self.dot(other)
    }
}

impl<T: Copy + PartialOrd + Div<Output = T>> ArrayND<T> {
    /// The array of the quotients of each element and `num`.
    pub fn div(&self, num: T) -> (array: ArrayND<T>)
        requires
            self.wf(),
            forall|i: int|
                0 <= i < self.elements().len() ==> (#[trigger] self.elements()[i]).div_req(num),
        ensures
            reframed(*self, array),
            quotients(self.elements(), repeated(num, self.elements()), array.elements()),
    {
        let over = |x: T| -> (y: T)
            requires
                x.div_req(num),
            ensures
                T::obeys_div_spec() ==> y == x.div_spec(num),
                divided(x, num, y),
            { x / num };
        self.apply_clone(over)
    }
}

impl<T: Copy + PartialOrd> ArrayND<T> {
    /// The array of the elements held between `min` and `max`, of which
    /// `min` must not lie above `max`.
    pub fn clamp(&self, min: T, max: T) -> (array: ArrayND<T>)
        requires
            self.wf(),
            at_most(min, max),
        ensures
            reframed(*self, array),
            forall|i: int|
                0 <= i < self.elements().len() ==> held(
                    self.elements()[i],
                    min,
                    max,
                    #[trigger] array.elements()[i],
                ),
            ordered::<T>() ==> forall|i: int|
                0 <= i < self.elements().len() ==> #[trigger] array.elements()[i] == clamped(
                    self.elements()[i],
                    min,
                    max,
                ),
    {
        let hold = |x: T| -> (y: T)
            ensures
                held(x, min, max, y),
                ordered::<T>() ==> y == clamped(x, min, max),
            {
                if x < min {
                    min
                } else if x > max {
                    max
                } else {
                    x
                }
            };
        self.apply_clone(hold)
    }
}

impl<T: Copy + PartialOrd + Zero + One + Add<Output = T> + Mul<Output = T>> ArrayND<T> {
    /// Asks `func` about every element, which answers `one` or `zero` as
    /// `verdict` and `test` say.
    fn mark<F: FnMut(T) -> T>(
        &self,
        func: F,
        one: T,
        zero: T,
        Ghost(verdict): Ghost<spec_fn(T, bool) -> bool>,
        Ghost(test): Ghost<spec_fn(T) -> bool>,
        Ghost(known): Ghost<bool>,
    ) -> (array: ArrayND<T>)
        requires
            self.wf(),
            answers(one, zero),
            forall|x: T| call_requires(func, (x,)),
            forall|x: T, y: T| #[trigger]
                call_ensures(func, (x,), y) ==> judged_one(x, verdict, one, zero, y),
            known ==> forall|x: T, y: T| #[trigger]
                call_ensures(func, (x,), y) ==> picked(test(x), one, zero, y),
        ensures
            reframed(*self, array),
            tested(self.elements(), verdict, test, known, array.elements()),
    {
        let array = self.apply_clone(func);
        proof {
            assert(judged(self.elements(), verdict, one, zero, array.elements()));
            assert(answers(one, zero));
        }
        array
    }

    /// One where the element is above `value`, zero elsewhere.
    pub fn greater(&self, value: T) -> (array: ArrayND<T>)
        requires
            self.wf(),
        ensures
            reframed(*self, array),
            tested(
                self.elements(),
                |x: T, answer: bool| above(x, value, answer),
                |x: T| greater(x, value),
                ordered::<T>(),
                array.elements(),
            ),
    {
        let one: T = one_of::<T>();
        let zero: T = zero_of::<T>();
        let test = |x: T| -> (y: T)
            ensures
                judged_one(x, |x: T, answer: bool| above(x, value, answer), one, zero, y),
                ordered::<T>() ==> picked(greater(x, value), one, zero, y),
            {
                let answer: bool = x > value;
                let y: T = if answer {
                    one
                } else {
                    zero
                };
                proof {
                    assert(picked(answer, one, zero, y));
                }
                y
            };
        self.mark(
            test,
            one,
            zero,
            Ghost(|x: T, answer: bool| above(x, value, answer)),
            Ghost(|x: T| greater(x, value)),
            Ghost(ordered::<T>()),
        )
    }

    /// One where the element is `value` or above, zero elsewhere.
    pub fn greater_equal(&self, value: T) -> (array: ArrayND<T>)
        requires
            self.wf(),
        ensures
            reframed(*self, array),
            tested(
                self.elements(),
                |x: T, answer: bool| above_or_equal(x, value, answer),
                |x: T| at_least(x, value),
                ordered::<T>(),
                array.elements(),
            ),
    {
        let one: T = one_of::<T>();
        let zero: T = zero_of::<T>();
        let test = |x: T| -> (y: T)
            ensures
                judged_one(x, |x: T, answer: bool| above_or_equal(x, value, answer), one, zero, y),
                ordered::<T>() ==> picked(at_least(x, value), one, zero, y),
            {
                let answer: bool = x >= value;
                let y: T = if answer {
                    one
                } else {
                    zero
                };
                proof {
                    assert(picked(answer, one, zero, y));
                }
                y
            };
        self.mark(
            test,
            one,
            zero,
            Ghost(|x: T, answer: bool| above_or_equal(x, value, answer)),
            Ghost(|x: T| at_least(x, value)),
            Ghost(ordered::<T>()),
        )
    }

    /// One where the element is below `value`, zero elsewhere.
    pub fn less(&self, value: T) -> (array: ArrayND<T>)
        requires
            self.wf(),
        ensures
            reframed(*self, array),
            tested(
                self.elements(),
                |x: T, answer: bool| below(x, value, answer),
                |x: T| less(x, value),
                ordered::<T>(),
                array.elements(),
            ),
    {
        let one: T = one_of::<T>();
        let zero: T = zero_of::<T>();
        let test = |x: T| -> (y: T)
            ensures
                judged_one(x, |x: T, answer: bool| below(x, value, answer), one, zero, y),
                ordered::<T>() ==> picked(less(x, value), one, zero, y),
            {
                let answer: bool = x < value;
                let y: T = if answer {
                    one
                } else {
                    zero
                };
                proof {
                    assert(picked(answer, one, zero, y));
                }
                y
            };
        self.mark(
            test,
            one,
            zero,
            Ghost(|x: T, answer: bool| below(x, value, answer)),
            Ghost(|x: T| less(x, value)),
            Ghost(ordered::<T>()),
        )
    }

    /// One where the element is `value` or below, zero elsewhere.
    pub fn less_equal(&self, value: T) -> (array: ArrayND<T>)
        requires
            self.wf(),
        ensures
            reframed(*self, array),
            tested(
                self.elements(),
                |x: T, answer: bool| below_or_equal(x, value, answer),
                |x: T| at_most(x, value),
                ordered::<T>(),
                array.elements(),
            ),
    {
        let one: T = one_of::<T>();
        let zero: T = zero_of::<T>();
        let test = |x: T| -> (y: T)
            ensures
                judged_one(x, |x: T, answer: bool| below_or_equal(x, value, answer), one, zero, y),
                ordered::<T>() ==> picked(at_most(x, value), one, zero, y),
            {
                let answer: bool = x <= value;
                let y: T = if answer {
                    one
                } else {
                    zero
                };
                proof {
                    assert(picked(answer, one, zero, y));
                }
                y
            };
        self.mark(
            test,
            one,
            zero,
            Ghost(|x: T, answer: bool| below_or_equal(x, value, answer)),
            Ghost(|x: T| at_most(x, value)),
            Ghost(ordered::<T>()),
        )
    }

    /// One where the element equals `value`, zero elsewhere.
    pub fn equal(&self, value: T) -> (array: ArrayND<T>)
        requires
            self.wf(),
        ensures
            reframed(*self, array),
            tested(
                self.elements(),
                |x: T, answer: bool| equal(x, value, answer),
                |x: T| alike(x, value),
                equates::<T>(),
                array.elements(),
            ),
    {
        let one: T = one_of::<T>();
        let zero: T = zero_of::<T>();
        let test = |x: T| -> (y: T)
            ensures
                judged_one(x, |x: T, answer: bool| equal(x, value, answer), one, zero, y),
                equates::<T>() ==> picked(alike(x, value), one, zero, y),
            {
                let answer: bool = x == value;
                let y: T = if answer {
                    one
                } else {
                    zero
                };
                proof {
                    assert(picked(answer, one, zero, y));
                }
                y
            };
        self.mark(
            test,
            one,
            zero,
            Ghost(|x: T, answer: bool| equal(x, value, answer)),
            Ghost(|x: T| alike(x, value)),
            Ghost(equates::<T>()),
        )
    }

    /// One where the element differs from `value`, zero elsewhere.
    pub fn not_equal(&self, value: T) -> (array: ArrayND<T>)
        requires
            self.wf(),
        ensures
            reframed(*self, array),
            tested(
                self.elements(),
                |x: T, answer: bool| unequal(x, value, answer),
                |x: T| !alike(x, value),
                equates::<T>(),
                array.elements(),
            ),
    {
        let one: T = one_of::<T>();
        let zero: T = zero_of::<T>();
        let test = |x: T| -> (y: T)
            ensures
                judged_one(x, |x: T, answer: bool| unequal(x, value, answer), one, zero, y),
                equates::<T>() ==> picked(!alike(x, value), one, zero, y),
            {
                let answer: bool = x != value;
                let y: T = if answer {
                    one
                } else {
                    zero
                };
                proof {
                    assert(picked(answer, one, zero, y));
                }
                y
            };
        self.mark(
            test,
            one,
            zero,
            Ghost(|x: T, answer: bool| unequal(x, value, answer)),
            Ghost(|x: T| !alike(x, value)),
            Ghost(equates::<T>()),
        )
    }

    /// One where the element equals zero, zero elsewhere.
    pub fn is_zero(&self) -> (array: ArrayND<T>)
        requires
            self.wf(),
        ensures
            reframed(*self, array),
            exists|one: T, zero: T| #[trigger]
                answers(one, zero) && judged(
                    self.elements(),
                    |x: T, answer: bool| equal(x, zero, answer),
                    one,
                    zero,
                    array.elements(),
                ) && (equates::<T>() ==> marked(
                    self.elements(),
                    |x: T| alike(x, zero),
                    one,
                    zero,
                    array.elements(),
                )),
    {
        let one: T = one_of::<T>();
        let zero: T = zero_of::<T>();
        let test = |x: T| -> (y: T)
            ensures
                judged_one(x, |x: T, answer: bool| equal(x, zero, answer), one, zero, y),
                equates::<T>() ==> picked(alike(x, zero), one, zero, y),
            {
                let answer: bool = x == zero;
                let y: T = if answer {
                    one
                } else {
                    zero
                };
                proof {
                    assert(picked(answer, one, zero, y));
                }
                y
            };
        let array = self.apply_clone(test);
        proof {
            assert(answers(one, zero));
            assert(judged(
                self.elements(),
                |x: T, answer: bool| equal(x, zero, answer),
                one,
                zero,
                array.elements(),
            ));
        }
        array
    }

    /// One where the element equals one, zero elsewhere.
    pub fn is_one(&self) -> (array: ArrayND<T>)
        requires
            self.wf(),
        ensures
            reframed(*self, array),
            exists|one: T, zero: T| #[trigger]
                answers(one, zero) && judged(
                    self.elements(),
                    |x: T, answer: bool| equal(x, one, answer),
                    one,
                    zero,
                    array.elements(),
                ) && (equates::<T>() ==> marked(
                    self.elements(),
                    |x: T| alike(x, one),
                    one,
                    zero,
                    array.elements(),
                )),
    {
        let one: T = one_of::<T>();
        let zero: T = zero_of::<T>();
        let test = |x: T| -> (y: T)
            ensures
                judged_one(x, |x: T, answer: bool| equal(x, one, answer), one, zero, y),
                equates::<T>() ==> picked(alike(x, one), one, zero, y),
            {
                let answer: bool = x == one;
                let y: T = if answer {
                    one
                } else {
                    zero
                };
                proof {
                    assert(picked(answer, one, zero, y));
                }
                y
            };
        let array = self.apply_clone(test);
        proof {
            assert(answers(one, zero));
            assert(judged(
                self.elements(),
                |x: T, answer: bool| equal(x, one, answer),
                one,
                zero,
                array.elements(),
            ));
        }
        array
    }

    /// One where both elements are true, zero elsewhere.
    ///
    /// Fails with `ShapeMismatchError` where the shapes differ.
    pub fn and(&self, other: ArrayND<T>) -> (outcome: Result<ArrayND<T>, ArrayError>)
        requires
            self.wf(),
            other.wf(),
        ensures
            matched(*self, other, outcome),
            outcome is Ok ==> exists|one: T, zero: T| #[trigger]
                answers(one, zero) && judged_pairs(
                    self.elements(),
                    other.elements(),
                    |a: T, b: T, answer: bool| both(a, b, zero, answer),
                    one,
                    zero,
                    outcome->Ok_0.elements(),
                ) && (ordered::<T>() ==> marked_pairs(
                    self.elements(),
                    other.elements(),
                    |a: T, b: T| greater(a, zero) && greater(b, zero),
                    one,
                    zero,
                    outcome->Ok_0.elements(),
                )),
    {
        let one: T = one_of::<T>();
        let zero: T = zero_of::<T>();
        let test = |a: T, b: T| -> (c: T)
            ensures
                judged_pair(
                    a,
                    b,
                    |a: T, b: T, answer: bool| both(a, b, zero, answer),
                    one,
                    zero,
                    c,
                ),
                ordered::<T>() ==> picked(greater(a, zero) && greater(b, zero), one, zero, c),
            {
                let first: bool = a > zero;
                let second: bool = b > zero;
                let answer: bool = first && second;
                let c: T = if answer {
                    one
                } else {
                    zero
                };
                proof {
                    assert(truths(a, b, zero, first, second));
                    assert(both(a, b, zero, answer));
                    assert(picked(answer, one, zero, c));
                }
                c
            };
        let outcome = self.apply_elementwise_with_other_array(other, test);
        proof {
            assert(answers(one, zero));
            if outcome is Ok {
                assert(judged_pairs(
                    self.elements(),
                    other.elements(),
                    |a: T, b: T, answer: bool| both(a, b, zero, answer),
                    one,
                    zero,
                    outcome->Ok_0.elements(),
                ));
            }
        }
        outcome
    }

    /// One where one of the elements is true or both are, zero elsewhere.
    ///
    /// Fails with `ShapeMismatchError` where the shapes differ.
    pub fn or(&self, other: ArrayND<T>) -> (outcome: Result<ArrayND<T>, ArrayError>)
        requires
            self.wf(),
            other.wf(),
        ensures
            matched(*self, other, outcome),
            outcome is Ok ==> exists|one: T, zero: T| #[trigger]
                answers(one, zero) && judged_pairs(
                    self.elements(),
                    other.elements(),
                    |a: T, b: T, answer: bool| either(a, b, zero, answer),
                    one,
                    zero,
                    outcome->Ok_0.elements(),
                ) && (ordered::<T>() ==> marked_pairs(
                    self.elements(),
                    other.elements(),
                    |a: T, b: T| greater(a, zero) || greater(b, zero),
                    one,
                    zero,
                    outcome->Ok_0.elements(),
                )),
    {
        let one: T = one_of::<T>();
        let zero: T = zero_of::<T>();
        let test = |a: T, b: T| -> (c: T)
            ensures
                judged_pair(
                    a,
                    b,
                    |a: T, b: T, answer: bool| either(a, b, zero, answer),
                    one,
                    zero,
                    c,
                ),
                ordered::<T>() ==> picked(greater(a, zero) || greater(b, zero), one, zero, c),
            {
                let first: bool = a > zero;
                let second: bool = b > zero;
                let answer: bool = first || second;
                let c: T = if answer {
                    one
                } else {
                    zero
                };
                proof {
                    assert(truths(a, b, zero, first, second));
                    assert(either(a, b, zero, answer));
                    assert(picked(answer, one, zero, c));
                }
                c
            };
        let outcome = self.apply_elementwise_with_other_array(other, test);
        proof {
            assert(answers(one, zero));
            if outcome is Ok {
                assert(judged_pairs(
                    self.elements(),
                    other.elements(),
                    |a: T, b: T, answer: bool| either(a, b, zero, answer),
                    one,
                    zero,
                    outcome->Ok_0.elements(),
                ));
            }
        }
        outcome
    }

    /// One where exactly one of the elements is true, zero elsewhere.
    ///
    /// Fails with `ShapeMismatchError` where the shapes differ.
    pub fn xor(&self, other: ArrayND<T>) -> (outcome: Result<ArrayND<T>, ArrayError>)
        requires
            self.wf(),
            other.wf(),
        ensures
            matched(*self, other, outcome),
            outcome is Ok ==> exists|one: T, zero: T| #[trigger]
                answers(one, zero) && judged_pairs(
                    self.elements(),
                    other.elements(),
                    |a: T, b: T, answer: bool| exactly_one(a, b, zero, answer),
                    one,
                    zero,
                    outcome->Ok_0.elements(),
                ) && (ordered::<T>() ==> marked_pairs(
                    self.elements(),
                    other.elements(),
                    |a: T, b: T| greater(a, zero) != greater(b, zero),
                    one,
                    zero,
                    outcome->Ok_0.elements(),
                )),
    {
        let one: T = one_of::<T>();
        let zero: T = zero_of::<T>();
        let test = |a: T, b: T| -> (c: T)
            ensures
                judged_pair(
                    a,
                    b,
                    |a: T, b: T, answer: bool| exactly_one(a, b, zero, answer),
                    one,
                    zero,
                    c,
                ),
                ordered::<T>() ==> picked(greater(a, zero) != greater(b, zero), one, zero, c),
            {
                let first: bool = a > zero;
                let second: bool = b > zero;
                let answer: bool = first != second;
                let c: T = if answer {
                    one
                } else {
                    zero
                };
                proof {
                    assert(truths(a, b, zero, first, second));
                    assert(exactly_one(a, b, zero, answer));
                    assert(picked(answer, one, zero, c));
                }
                c
            };
        let outcome = self.apply_elementwise_with_other_array(other, test);
        proof {
            assert(answers(one, zero));
            if outcome is Ok {
                assert(judged_pairs(
                    self.elements(),
                    other.elements(),
                    |a: T, b: T, answer: bool| exactly_one(a, b, zero, answer),
                    one,
                    zero,
                    outcome->Ok_0.elements(),
                ));
            }
        }
        outcome
    }
}

} // verus!
