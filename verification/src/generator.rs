//! Arrays made from a rule: one value everywhere, the neutral elements,
//! an arithmetic progression, or values drawn at random.
use crate::array::{generate, ArrayND};
use crate::array1d::Array1D;
use crate::error::ArrayError;
use crate::arithmetic::added;
use crate::order::{at_most, below, less, ordered};
use crate::reduce::{
    additive_identity, adds, always_adds, multiplicative_identity, one_of, zero_of,
};
use crate::shape::{product, representable};
use core::ops::Add;
use core::ops::Mul;
use num_traits::One;
use num_traits::Zero;
use rand::distributions::uniform::SampleUniform;
use rand::distributions::Distribution;
use rand::distributions::Standard;
use rand::Rng;
use vstd::prelude::*;
use vstd::std_specs::ops::AddSpec;

verus! {

/// What asking for an array of shape `shape` gives, whatever its elements:
/// no array where the shape is unsupported or has an empty dimension, and
/// otherwise an array of that shape.
pub open spec fn shaped<T: PartialOrd>(
    shape: Seq<usize>,
    outcome: Result<ArrayND<T>, ArrayError>,
) -> bool {
    if !representable(shape) {
        outcome == Err::<ArrayND<T>, ArrayError>(ArrayError::ShapeError)
    } else if product(shape) == 0 {
        outcome == Err::<ArrayND<T>, ArrayError>(ArrayError::EmptyArrayError)
    } else {
        &&& outcome is Ok
        &&& outcome->Ok_0.wf()
        &&& outcome->Ok_0.dims() == shape
    }
}

/// What filling an array of shape `shape` with `value` gives: an array, as
/// [`shaped`] says, whose every element is `value`.
pub open spec fn filled<T: PartialOrd>(
    value: T,
    shape: Seq<usize>,
    outcome: Result<ArrayND<T>, ArrayError>,
) -> bool {
    &&& shaped(shape, outcome)
    &&& outcome is Ok ==> forall|i: int|
        0 <= i < outcome->Ok_0.elements().len() ==> #[trigger] outcome->Ok_0.elements()[i]
            == value
}

/// The value that `k` steps lead to from `start`: `start + step + ..`.
pub open spec fn stepped<T: Add<Output = T>>(start: T, step: T, k: nat) -> T
    decreases k,
{
    if k == 0 {
        start
    } else {
        stepped(start, step, (k - 1) as nat).add_spec(step)
    }
}

/// A step can be added to every value of the progression that still lies
/// below `stop`.
pub open spec fn steps_defined<T: PartialOrd + Add<Output = T>>(
    start: T,
    stop: T,
    step: T,
) -> bool {
    always_adds::<T>() || (adds::<T>() && forall|k: nat|
        (ordered::<T>() ==> less(stepped(start, step, k), stop)) ==> (#[trigger] stepped(
            start,
            step,
            k,
        )).add_req(step))
}

/// `values` is a run of the progression from `start` by `step`: it begins
/// with `start`, each value after the first is a result of adding `step`
/// to the one before it, and `value < stop` answered yes for each.
pub open spec fn stepping<T: PartialOrd + Add<Output = T>>(
    start: T,
    stop: T,
    step: T,
    values: Seq<T>,
) -> bool {
    &&& values.len() > 0 ==> values[0] == start
    &&& forall|k: int|
        0 <= k < values.len() - 1 ==> added(values[k], step, #[trigger] values[k + 1])
    &&& forall|k: int| 0 <= k < values.len() ==> below(#[trigger] values[k], stop, true)
}

/// The run `values` of the progression is complete: `value < stop`
/// answered no for the value that comes after its last, or it holds as
/// many values as a vector can.
pub open spec fn stopped<T: PartialOrd + Add<Output = T>>(
    start: T,
    stop: T,
    step: T,
    values: Seq<T>,
) -> bool {
    ||| values.len() == usize::MAX
    ||| values.len() == 0 && below(start, stop, false)
    ||| values.len() > 0 && exists|next: T|
        added(values.last(), step, next) && #[trigger] below(next, stop, false)
}

/// What the progression from `start` by `step` below `stop` gives: no
/// array where `start` is not below `stop`, and otherwise the rank-1 array
/// of the values `start`, `start + step`, .. that lie below `stop`, up to
/// the first that does not (or as many as a vector can hold).
pub open spec fn ranged<T: PartialOrd + Add<Output = T>>(
    start: T,
    stop: T,
    step: T,
    outcome: Result<ArrayND<T>, ArrayError>,
) -> bool {
    &&& outcome is Err ==> outcome == Err::<ArrayND<T>, ArrayError>(ArrayError::EmptyArrayError)
        && below(start, stop, false)
    &&& ordered::<T>() ==> (outcome is Ok <==> less(start, stop))
    &&& outcome is Ok ==> {
        let array = outcome->Ok_0;
        let values = array.elements();
        &&& array.wf()
        &&& array.dims() == seq![values.len() as usize]
        &&& stepping(start, stop, step, values)
        &&& stopped(start, stop, step, values)
        &&& adds::<T>() ==> forall|k: int|
            0 <= k < values.len() ==> #[trigger] values[k] == stepped(start, step, k as nat)
        &&& ordered::<T>() ==> forall|k: int|
            0 <= k < values.len() ==> less(#[trigger] values[k], stop)
        &&& ordered::<T>() && adds::<T>() && values.len() < usize::MAX ==> !less(
            stepped(start, step, values.len()),
            stop,
        )
    }
}

/// A value of `T` drawn at random, from `rand::random`.
///
/// Trusted: nothing is claimed of the value.
#[verifier::external_body]
pub(crate) fn random_value<T>() -> (value: T) where Standard: Distribution<T> {
    rand::random::<T>()
}

/// A value drawn at random from `min` up to, and without, `max`, from
/// `rand::Rng::gen_range` on the generator of the calling thread.
///
/// Trusted: `gen_range` refuses an empty range, and samples from the range
/// with its lower bound and without its upper bound. Both are claimed only
/// for types whose comparison obeys its spec function.
#[verifier::external_body]
pub(crate) fn random_between<T: SampleUniform + PartialOrd>(min: T, max: T) -> (value: T)
    requires
        ordered::<T>(),
        less(min, max),
    ensures
        at_most(min, value),
        less(value, max),
{
    rand::thread_rng().gen_range(min..max)
}

/// Draws `count` values from `min` up to, and without, `max`.
pub fn random_values<T: Copy + SampleUniform + PartialOrd>(count: usize, min: T, max: T) -> (values:
    Vec<T>)
    requires
        ordered::<T>(),
        less(min, max),
    ensures
        values@.len() == count,
        forall|i: int|
            0 <= i < count ==> at_most(min, #[trigger] values@[i]) && less(values@[i], max),
{
    let mut values: Vec<T> = Vec::new();
    let mut drawn: usize = 0;
    while drawn < count
        invariant
            drawn <= count,
            ordered::<T>(),
            less(min, max),
            values@.len() == drawn,
            forall|i: int|
                0 <= i < drawn ==> at_most(min, #[trigger] values@[i]) && less(values@[i], max),
        decreases count - drawn,
    {
        values.push(random_between(min, max));
        drawn += 1;
    }
    values
}

impl<T: Copy + PartialOrd> ArrayND<T> {
    /// The array of the given shape that holds `value` everywhere.
    pub fn fill(value: T, shape: Vec<usize>) -> (outcome: Result<ArrayND<T>, ArrayError>)
        ensures
            filled(value, shape@, outcome),
    {
        let constant = || -> (made: T)
            ensures
                made == value,
            { value };
        generate(constant, shape)
    }

    /// The array of the given shape whose elements are drawn at random,
    /// once for each element, in row-major order.
    pub fn random(shape: Vec<usize>) -> (outcome: Result<ArrayND<T>, ArrayError>) where
        Standard: Distribution<T>,

        ensures
            shaped(shape@, outcome),
    {
        let draw = || -> (made: T) { random_value::<T>() };
        generate(draw, shape)
    }
}

impl<T: Copy + PartialOrd + SampleUniform> ArrayND<T> {
    /// The rank-1 array of `size` elements drawn at random from `min` up
    /// to, and without, `max`, which must lie above `min`.
    ///
    /// Fails with `EmptyArrayError` where `size` is zero.
    pub fn random_range(size: usize, min: T, max: T) -> (outcome: Result<ArrayND<T>, ArrayError>)
        requires
            ordered::<T>(),
            less(min, max),
        ensures
            size == 0 <==> outcome is Err,
            outcome is Err ==> outcome == Err::<ArrayND<T>, ArrayError>(
                ArrayError::EmptyArrayError,
            ),
            outcome is Ok ==> outcome->Ok_0.wf() && outcome->Ok_0.dims() == seq![size]
                && outcome->Ok_0.elements().len() == size && forall|i: int|
                0 <= i < size ==> at_most(min, #[trigger] outcome->Ok_0.elements()[i]) && less(
                    outcome->Ok_0.elements()[i],
                    max,
                ),
    {
        let values: Vec<T> = random_values(size, min, max);
        let outcome = ArrayND::new1d(values);
        proof {
            crate::shape::lemma_product_unfold(seq![size]);
        }
        outcome
    }
}

impl<T: Copy + PartialOrd + Zero + Add<Output = T>> ArrayND<T> {
    /// The array of the given shape that holds the neutral element of `+`
    /// everywhere.
    pub fn zeros(shape: Vec<usize>) -> (outcome: Result<ArrayND<T>, ArrayError>)
        ensures
            exists|zero: T| additive_identity(zero) && #[trigger] filled(zero, shape@, outcome),
    {
        let zero: T = zero_of::<T>();
        ArrayND::fill(zero, shape)
    }
}

impl<T: Copy + PartialOrd + One + Mul<Output = T>> ArrayND<T> {
    /// The array of the given shape that holds the neutral element of `*`
    /// everywhere.
    pub fn ones(shape: Vec<usize>) -> (outcome: Result<ArrayND<T>, ArrayError>)
        ensures
            exists|one: T| multiplicative_identity(one) && #[trigger] filled(one, shape@, outcome),
    {
        let one: T = one_of::<T>();
        ArrayND::fill(one, shape)
    }
}

impl<T: Copy + PartialOrd + Add<Output = T>> ArrayND<T> {
    /// The rank-1 array of the progression `start`, `start + step`, ..,
    /// for as long as the value is below `stop`.
    ///
    /// Nothing checks that the steps lead towards `stop`. Where they do
    /// not, the progression goes on until it has as many values as a
    /// vector can hold. Fails with `EmptyArrayError` where `start` is not
    /// below `stop`.
    pub fn arange(start: T, stop: T, step: T) -> (outcome: Result<ArrayND<T>, ArrayError>)
        requires
            steps_defined(start, stop, step),
        ensures
            ranged(start, stop, step, outcome),
    {
        let mut data: Vec<T> = Vec::new();
        let mut value: T = start;
        let mut more: bool = value < stop;
        while more && data.len() < usize::MAX
            invariant
                steps_defined(start, stop, step),
                stepping(start, stop, step, data@),
                below(value, stop, more),
                data@.len() > 0 ==> added(data@.last(), step, value),
                adds::<T>() ==> value == stepped(start, step, data@.len()),
                ordered::<T>() ==> more == less(value, stop),
                adds::<T>() ==> forall|k: int|
                    0 <= k < data@.len() ==> #[trigger] data@[k] == stepped(start, step, k as nat),
                ordered::<T>() ==> forall|k: int|
                    0 <= k < data@.len() ==> less(#[trigger] data@[k], stop),
                ordered::<T>() && data@.len() == 0 ==> more == less(start, stop),
                ordered::<T>() && data@.len() > 0 ==> less(start, stop),
                data@.len() == 0 ==> value == start,
            decreases usize::MAX - data@.len(),
        {
            let ghost before = data@;
            data.push(value);
            proof {
                assert forall|k: int| 0 <= k < data@.len() - 1 implies added(
                    data@[k],
                    step,
                    #[trigger] data@[k + 1],
                ) by {
                    if k + 1 < before.len() {
                        assert(data@[k] == before[k] && data@[k + 1] == before[k + 1]);
                    } else {
                        assert(data@[k] == before.last());
                    }
                }
            }
            value = value + step;
            more = value < stop;
        }
        let outcome = ArrayND::new1d(data);
        proof {
            crate::shape::lemma_product_unfold(seq![data@.len() as usize]);
        }
        outcome
    }
}

impl<T: Copy + PartialOrd> Array1D<T> {
    /// The array of `size` elements drawn at random; `size` must not be
    /// zero.
    pub fn random(size: usize) -> (array: Array1D<T>) where Standard: Distribution<T>
        requires
            size > 0,
        ensures
            array.wf(),
            array@.len() == size,
    {
        let mut values: Vec<T> = Vec::new();
        let mut drawn: usize = 0;
        while drawn < size
            invariant
                drawn <= size,
                values@.len() == drawn,
            decreases size - drawn,
        {
            values.push(random_value::<T>());
            drawn += 1;
        }
        Array1D::new(values)
    }
}

impl<T: Copy + PartialOrd + SampleUniform> Array1D<T> {
    /// The array of `size` elements drawn at random from `min` up to, and
    /// without, `max`, which must lie above `min`; `size` must not be zero.
    pub fn random_range(size: usize, min: T, max: T) -> (array: Array1D<T>)
        requires
            size > 0,
            ordered::<T>(),
            less(min, max),
        ensures
            array.wf(),
            array@.len() == size,
            forall|i: int|
                0 <= i < size ==> at_most(min, #[trigger] array@[i]) && less(array@[i], max),
    {
        Array1D::new(random_values(size, min, max))
    }
}

} // verus!
