//! The array: its storage together with its shape, its element count and
//! its smallest and largest element.
use crate::elementwise::{
    accepts, accepts_pairs, map_in_place, map_values, mapped, produce_values, produced, zip_values,
    zipped,
};
use crate::error::ArrayError;
use crate::order::{
    find_max_in, find_min_in, lemma_scanned_max, lemma_scanned_min, max_of, min_of, ordered,
    scanned_max, scanned_min,
};
use crate::reduce::{
    adds, always_adds, fold1, fold2, fold3, fold4, lemma_split_folds_are_sums, lemma_sum_from_zero,
    pieces_summable, split_folds, split_summable, split_sums, split_total, summable, summed,
    sums_of_pieces, zero_of,
};
use crate::shape::{
    has_zero_length, lemma_product_nonnegative, lemma_product_zero, product, representable,
    same_shape, size_of, supported_rank, validate, PARALLEL_THRESHOLD,
};
use crate::storage::ArrayData;
use core::ops::Add;
use num_traits::Zero;
use vstd::prelude::*;

verus! {

/// A dense array of one to four dimensions.
///
/// The array owns its storage. It keeps the length of each dimension, the
/// number of elements, and the smallest and largest element as they were
/// found when the elements were last computed.
#[derive(Debug)]
pub struct ArrayND<T> {
    data: ArrayData<T>,
    max: T,
    min: T,
    shape: Vec<usize>,
    size: usize,
}

impl<T> ArrayND<T> {
    /// The nested elements.
    pub closed spec fn storage(self) -> ArrayData<T> {
        self.data
    }

    /// The elements in row-major order.
    pub open spec fn elements(self) -> Seq<T> {
        self.storage().elements()
    }

    /// The length of each dimension.
    pub closed spec fn dims(self) -> Seq<usize> {
        self.shape@
    }

    /// The recorded number of elements.
    pub closed spec fn count(self) -> usize {
        self.size
    }

    /// The recorded smallest element.
    pub closed spec fn lowest(self) -> T {
        self.min
    }

    /// The recorded largest element.
    pub closed spec fn highest(self) -> T {
        self.max
    }
}

impl<T: Copy + PartialOrd> Clone for ArrayND<T> {
    /// A copy of the array: the same elements at the same positions of the
    /// nesting, the same shape, element count and extrema.
    fn clone(&self) -> (copy: ArrayND<T>)
        ensures
            self.wf() ==> copy.wf(),
            copy.storage().same_nesting(self.storage()),
            copy.elements() == self.elements(),
            copy.dims() == self.dims(),
            copy.count() == self.count(),
            copy.lowest() == self.lowest(),
            copy.highest() == self.highest(),
    {
        let data: ArrayData<T> = self.data.iter();
        let shape: Vec<usize> = self.shape.clone();
        ArrayND { data, max: self.max, min: self.min, shape, size: self.size }
    }
}

impl<T: PartialOrd> ArrayND<T> {
    /// The invariant of an array: the storage is rectangular and has the
    /// recorded shape, the element count is what the storage holds and is
    /// not zero, and the recorded extrema are the ones that a scan of the
    /// row-major order from left to right finds.
    pub open spec fn wf(self) -> bool {
        &&& self.storage().rectangular()
        &&& self.dims() == self.storage().dims()
        &&& self.count() == self.elements().len()
        &&& self.count() > 0
        &&& scanned_min(self.elements(), self.lowest())
        &&& scanned_max(self.elements(), self.highest())
    }

    /// The recorded extrema of an array are elements of it, and for a type
    /// whose comparison obeys its spec function they are the smallest
    /// and the largest element.
    pub proof fn lemma_extrema(self)
        requires
            self.wf(),
        ensures
            self.elements().contains(self.lowest()),
            self.elements().contains(self.highest()),
            ordered::<T>() ==> self.lowest() == min_of(self.elements()) && self.highest()
                == max_of(self.elements()),
    {
        lemma_scanned_min(self.elements(), self.lowest());
        lemma_scanned_max(self.elements(), self.highest());
    }

    /// The element count of an array is the product of its dimensions.
    pub proof fn lemma_count_is_product(self)
        requires
            self.wf(),
        ensures
            representable(self.dims()),
            product(self.dims()) == self.elements().len(),
            self.elements().len() > 0,
    {
        self.storage().lemma_count();
    }
}

/// What building an array from `data` gives: no array where a dimension is
/// empty, where components at the same depth differ in length, or where
/// the element count does not fit the machine, and otherwise an array that
/// holds exactly `data`.
pub open spec fn built_from<T: PartialOrd>(
    data: ArrayData<T>,
    outcome: Result<ArrayND<T>, ArrayError>,
) -> bool {
    if product(data.dims()) == 0 {
        outcome == Err::<ArrayND<T>, ArrayError>(ArrayError::EmptyArrayError)
    } else if !data.rectangular() || product(data.dims()) > usize::MAX {
        outcome == Err::<ArrayND<T>, ArrayError>(ArrayError::ShapeError)
    } else {
        &&& outcome is Ok
        &&& outcome->Ok_0.wf()
        &&& outcome->Ok_0.storage() == data
    }
}

/// What building an array of shape `shape` from the row-major order
/// `values` gives: no array where the shape is unsupported or stands for
/// another number of elements, or where there is no element, and otherwise
/// an array of that shape with those elements in that order.
pub open spec fn nested_from<T: PartialOrd>(
    shape: Seq<usize>,
    values: Seq<T>,
    outcome: Result<ArrayND<T>, ArrayError>,
) -> bool {
    if !representable(shape) || product(shape) != values.len() {
        outcome == Err::<ArrayND<T>, ArrayError>(ArrayError::ShapeError)
    } else if values.len() == 0 {
        outcome == Err::<ArrayND<T>, ArrayError>(ArrayError::EmptyArrayError)
    } else {
        &&& outcome is Ok
        &&& outcome->Ok_0.wf()
        &&& outcome->Ok_0.dims() == shape
        &&& outcome->Ok_0.elements() == values
    }
}

/// The smallest element of `data`, by a scan in row-major order.
pub fn find_min<T: Copy + PartialOrd>(data: &ArrayData<T>) -> (lowest: T)
    requires
        data.elements().len() > 0,
    ensures
        scanned_min(data.elements(), lowest),
        data.elements().contains(lowest),
        ordered::<T>() ==> lowest == min_of(data.elements()),
{
    let flat: Vec<T> = data.flatten();
    find_min_in(&flat)
}

/// The largest element of `data`, by a scan in row-major order.
pub fn find_max<T: Copy + PartialOrd>(data: &ArrayData<T>) -> (highest: T)
    requires
        data.elements().len() > 0,
    ensures
        scanned_max(data.elements(), highest),
        data.elements().contains(highest),
        ordered::<T>() ==> highest == max_of(data.elements()),
{
    let flat: Vec<T> = data.flatten();
    find_max_in(&flat)
}

impl<T: Copy + PartialOrd> ArrayND<T> {
    /// Builds an array from nested data of any supported rank.
    ///
    /// The shape is read off the nesting: the length of the outermost
    /// vector, then at each level the length of the first component. The
    /// element count is the product of the dimensions, and the extrema are
    /// found by a full scan. Fails with `EmptyArrayError` where a
    /// dimension is empty, and with `ShapeError` where components at the
    /// same depth differ in length or the element count does not fit the
    /// machine.
    pub fn new(data: ArrayData<T>) -> (outcome: Result<ArrayND<T>, ArrayError>)
        ensures
            built_from(data, outcome),
    {
        let shape: Vec<usize> = data.shape();
        proof {
            lemma_product_nonnegative(shape@);
            lemma_product_zero(shape@);
            assert(supported_rank(shape@));
        }
        if has_zero_length(&shape) {
            return Err(ArrayError::EmptyArrayError);
        }
        if !data.is_rectangular() {
            return Err(ArrayError::ShapeError);
        }
        proof {
            data.lemma_count();
        }
        match size_of(&shape) {
            Err(_) => Err(ArrayError::ShapeError),
            Ok(size) => {
                let min: T = find_min(&data);
                let max: T = find_max(&data);
                Ok(ArrayND { data, max, min, shape, size })
            },
        }
    }

    /// Builds a rank-1 array from its elements.
    pub fn new1d(data: Vec<T>) -> (outcome: Result<ArrayND<T>, ArrayError>)
        ensures
            built_from(ArrayData::OneD(data), outcome),
    {
        ArrayND::new(ArrayData::OneD(data))
    }

    /// Builds a rank-2 array from rows, which must have the same length.
    pub fn new2d(data: Vec<Vec<T>>) -> (outcome: Result<ArrayND<T>, ArrayError>)
        ensures
            built_from(ArrayData::TwoD(data), outcome),
    {
        ArrayND::new(ArrayData::TwoD(data))
    }

    /// Builds a rank-3 array from planes, which must have the same
    /// dimensions.
    pub fn new3d(data: Vec<Vec<Vec<T>>>) -> (outcome: Result<ArrayND<T>, ArrayError>)
        ensures
            built_from(ArrayData::ThreeD(data), outcome),
    {
        ArrayND::new(ArrayData::ThreeD(data))
    }

    /// Builds a rank-4 array from cubes, which must have the same
    /// dimensions.
    pub fn new4d(data: Vec<Vec<Vec<Vec<T>>>>) -> (outcome: Result<ArrayND<T>, ArrayError>)
        ensures
            built_from(ArrayData::FourD(data), outcome),
    {
        ArrayND::new(ArrayData::FourD(data))
    }

    /// Nests the row-major order `values` into an array of shape `shape`,
    /// after the shape was checked against the number of values.
    fn assemble(shape: Vec<usize>, values: Vec<T>) -> (array: ArrayND<T>)
        requires
            supported_rank(shape@),
            product(shape@) == values@.len(),
            values@.len() > 0,
        ensures
            array.wf(),
            array.dims() == shape@,
            array.elements() == values@,
    {
        let data: ArrayData<T> = ArrayData::from_flat(&shape, &values);
        let min: T = find_min_in(&values);
        let max: T = find_max_in(&values);
        let size: usize = values.len();
        ArrayND { data, max, min, shape, size }
    }

    /// Builds an array of shape `shape` from its elements in row-major
    /// order.
    ///
    /// Fails with `ShapeError` where the shape is unsupported or stands for
    /// another number of elements than were given, and with
    /// `EmptyArrayError` where none was given.
    pub fn from_flat(shape: Vec<usize>, values: Vec<T>) -> (outcome: Result<
        ArrayND<T>,
        ArrayError,
    >)
        ensures
            nested_from(shape@, values@, outcome),
    {
        match validate(&shape, values.len()) {
            Err(_) => Err(ArrayError::ShapeError),
            Ok(_) => {
                if values.len() == 0 {
                    Err(ArrayError::EmptyArrayError)
                } else {
                    Ok(ArrayND::assemble(shape, values))
                }
            },
        }
    }

    /// The nested elements.
    pub fn data(&self) -> (data: &ArrayData<T>)
        ensures
            *data == self.storage(),
    {
        &self.data
    }

    /// The length of each dimension.
    pub fn get_shape(&self) -> (shape: Vec<usize>)
        ensures
            shape@ == self.dims(),
    {
        self.shape.clone()
    }

    /// The number of elements.
    pub fn size(&self) -> (size: usize)
        requires
            self.wf(),
        ensures
            size == self.elements().len(),
            size == product(self.dims()),
            size > 0,
    {
        proof {
            self.lemma_count_is_product();
        }
        self.size
    }

    /// The smallest element, as a scan of the row-major order found it
    /// when the elements were last computed.
    pub fn min(&self) -> (lowest: T)
        ensures
            lowest == self.lowest(),
            self.wf() ==> self.elements().contains(lowest),
            self.wf() && ordered::<T>() ==> lowest == min_of(self.elements()),
    {
        proof {
            if self.wf() {
                self.lemma_extrema();
            }
        }
        self.min
    }

    /// The largest element, as a scan of the row-major order found it
    /// when the elements were last computed.
    pub fn max(&self) -> (highest: T)
        ensures
            highest == self.highest(),
            self.wf() ==> self.elements().contains(highest),
            self.wf() && ordered::<T>() ==> highest == max_of(self.elements()),
    {
        proof {
            if self.wf() {
                self.lemma_extrema();
            }
        }
        self.max
    }

    /// The elements in row-major order: the outermost index varies
    /// slowest.
    pub fn flatten(&self) -> (flat: Vec<T>)
        ensures
            flat@ == self.elements(),
    {
        self.data.flatten()
    }

    /// Gives the array another shape of the same element count.
    ///
    /// The elements keep their row-major order and the extrema stay as
    /// they are. Fails with `ShapeError`, and leaves the array as it was,
    /// where the new shape is unsupported or stands for another number of
    /// elements.
    pub fn reshape(&mut self, shape: Vec<usize>) -> (outcome: Result<(), ArrayError>)
        requires
            old(self).wf(),
        ensures
            reshaped(*old(self), shape@, outcome, *final(self)),
    {
        match validate(&shape, self.size) {
            Err(_) => Err(ArrayError::ShapeError),
            Ok(_) => {
                let flat: Vec<T> = self.data.flatten();
                let data: ArrayData<T> = ArrayData::from_flat(&shape, &flat);
                self.data = data;
                self.shape = shape;
                Ok(())
            },
        }
    }

    /// Applies `func` to every element, in row-major order, and builds an
    /// array of the same shape from the results. The array itself is left
    /// as it is.
    pub fn apply_clone<F: FnMut(T) -> T>(&self, func: F) -> (array: ArrayND<T>)
        requires
            self.wf(),
            accepts(func, self.elements()),
        ensures
            array.wf(),
            array.dims() == self.dims(),
            mapped(func, self.elements(), array.elements()),
    {
        proof {
            self.lemma_count_is_product();
        }
        let flat: Vec<T> = self.data.flatten();
        let values: Vec<T> = map_values(&flat, func);
        ArrayND::assemble(self.shape.clone(), values)
    }

    /// Applies `func` to every element, in row-major order, and builds an
    /// array of the same shape from the results. The array is used up.
    pub fn apply_inplace<F: FnMut(T) -> T>(self, func: F) -> (array: ArrayND<T>)
        requires
            self.wf(),
            accepts(func, self.elements()),
        ensures
            array.wf(),
            array.dims() == self.dims(),
            mapped(func, self.elements(), array.elements()),
    {
        proof {
            self.lemma_count_is_product();
        }
        let mut values: Vec<T> = self.data.flatten();
        map_in_place(&mut values, func);
        ArrayND::assemble(self.shape, values)
    }

    /// Applies `func` to the elements of the two arrays that stand at the
    /// same position, in row-major order, and builds an array of the same
    /// shape from the results.
    ///
    /// Fails with `ShapeMismatchError` where the shapes differ; shapes are
    /// never stretched and elements never dropped.
    pub fn apply_elementwise_with_other_array<F: FnMut(T, T) -> T>(
        &self,
        other: ArrayND<T>,
        func: F,
    ) -> (outcome: Result<ArrayND<T>, ArrayError>)
        requires
            self.wf(),
            other.wf(),
            self.dims() == other.dims() ==> accepts_pairs(func, self.elements(), other.elements()),
        ensures
            self.dims() != other.dims() ==> outcome == Err::<ArrayND<T>, ArrayError>(
                ArrayError::ShapeMismatchError,
            ),
            self.dims() == other.dims() ==> outcome is Ok && outcome->Ok_0.wf(),
            outcome is Ok ==> outcome->Ok_0.dims() == self.dims() && zipped(
                func,
                self.elements(),
                other.elements(),
                outcome->Ok_0.elements(),
            ),
    {
        if !same_shape(&self.shape, &other.shape) {
            return Err(ArrayError::ShapeMismatchError);
        }
        proof {
            self.lemma_count_is_product();
            other.lemma_count_is_product();
        }
        let left: Vec<T> = self.data.flatten();
        let right: Vec<T> = other.data.flatten();
        let values: Vec<T> = zip_values(&left, &right, func);
        Ok(ArrayND::assemble(self.shape.clone(), values))
    }
}

/// `sum` is what adding up the elements of `array` from left to right, in
/// row-major order, gives.
pub open spec fn sequential_sum<T: Add<Output = T>>(array: ArrayND<T>, sum: T) -> bool {
    summed(array.elements(), sum)
}

/// `sum` is what adding up the elements of `array` piece by piece gives,
/// for some split of the row-major order into consecutive pieces.
pub open spec fn parallel_sum<T: Add<Output = T>>(array: ArrayND<T>, sum: T) -> bool {
    split_total(array.elements(), sum)
}

/// `sum` is what the strategy that fits the size of `array` gives: the
/// sequential sum up to a million elements, a parallel sum above.
pub open spec fn chosen_sum<T: Add<Output = T>>(array: ArrayND<T>, sum: T) -> bool {
    if array.elements().len() <= PARALLEL_THRESHOLD {
        sequential_sum(array, sum)
    } else {
        parallel_sum(array, sum)
    }
}

impl<T: Copy + PartialOrd + Zero + Add<Output = T>> ArrayND<T> {
    /// The sum of all elements, added up by one worker: a left fold over
    /// the row-major order that starts at the neutral element of `+`.
    pub fn seq_sum(&self) -> (sum: T)
        requires
            self.wf(),
            summable(self.elements()),
        ensures
            sequential_sum(*self, sum),
    {
        let zero: T = zero_of::<T>();
        proof {
            if adds::<T>() {
                lemma_sum_from_zero(zero, self.elements());
            }
        }
        match &self.data {
            ArrayData::OneD(v) => fold1(zero, v),
            ArrayData::TwoD(v) => fold2(zero, v),
            ArrayData::ThreeD(v) => fold3(zero, v),
            ArrayData::FourD(v) => fold4(zero, v),
        }
    }
}

impl<T: Copy + PartialOrd + Zero + Add<Output = T> + Send + Sync> ArrayND<T> {
    /// The sum of all elements, added up by a pool of workers: the
    /// row-major order is split into consecutive pieces, each piece is
    /// added up from the neutral element of `+` by one worker, and the sums
    /// of the pieces are added up, first piece to last, from that element.
    ///
    /// Where the pieces are cut is up to the pool, so the sum is one of
    /// those that some split gives.
    pub fn par_sum(&self) -> (sum: T)
        requires
            self.wf(),
            split_summable(self.elements()),
        ensures
            parallel_sum(*self, sum),
    {
        let zero: T = zero_of::<T>();
        let flat: Vec<T> = self.data.flatten();
        let parts: Vec<T> = sums_of_pieces(&flat, zero);
        proof {
            if !always_adds::<T>() {
                assert(pieces_summable(zero, flat@));
                let cuts = choose|cuts: Seq<int>| split_folds(zero, flat@, cuts, parts@);
                lemma_split_folds_are_sums(zero, flat@, cuts, parts@);
                assert(split_sums(zero, flat@, cuts, parts@));
            }
        }
        fold1(zero, &parts)
    }

    /// The sum of all elements, by the strategy that fits the size: by one
    /// worker up to a million elements, as [`ArrayND::seq_sum`] does, and
    /// by a pool of workers above, as [`ArrayND::par_sum`] does.
    pub fn sum(&self) -> (sum: T)
        requires
            self.wf(),
            self.elements().len() <= PARALLEL_THRESHOLD ==> summable(self.elements()),
            self.elements().len() > PARALLEL_THRESHOLD ==> split_summable(self.elements()),
        ensures
            chosen_sum(*self, sum),
    {
        if self.size > PARALLEL_THRESHOLD {
            self.par_sum()
        } else {
            self.seq_sum()
        }
    }
}

/// What reshaping `before` to `shape` gives: where the shape is supported
/// and stands for as many elements as the array holds, an array of that
/// shape with the same elements in the same row-major order and the same
/// extrema; otherwise a `ShapeError` and the array as it was.
pub open spec fn reshaped<T: PartialOrd>(
    before: ArrayND<T>,
    shape: Seq<usize>,
    outcome: Result<(), ArrayError>,
    after: ArrayND<T>,
) -> bool {
    if representable(shape) && product(shape) == before.elements().len() {
        &&& outcome is Ok
        &&& after.wf()
        &&& after.dims() == shape
        &&& after.elements() == before.elements()
        &&& after.lowest() == before.lowest()
        &&& after.highest() == before.highest()
    } else {
        &&& outcome == Err::<(), ArrayError>(ArrayError::ShapeError)
        &&& after == before
    }
}

/// What generating an array of shape `shape` with `func` gives: no array
/// where the shape is unsupported or has an empty dimension, and otherwise
/// an array of that shape whose every element is a result of `func`.
pub open spec fn generated<T: PartialOrd, F: FnMut() -> T>(
    func: F,
    shape: Seq<usize>,
    outcome: Result<ArrayND<T>, ArrayError>,
) -> bool {
    if !representable(shape) {
        outcome == Err::<ArrayND<T>, ArrayError>(ArrayError::ShapeError)
    } else if product(shape) == 0 {
        outcome == Err::<ArrayND<T>, ArrayError>(ArrayError::EmptyArrayError)
    } else {
        &&& outcome is Ok
        &&& outcome->Ok_0.wf()
        &&& outcome->Ok_0.dims() == shape
        &&& produced(func, outcome->Ok_0.elements())
    }
}

/// Builds an array of the given shape, calling `func` once for each
/// element, in row-major order.
///
/// Fails with `ShapeError` where the shape has no dimension or more than
/// four or its element count does not fit the machine, and with
/// `EmptyArrayError` where a dimension is empty.
pub fn generate<T: Copy + PartialOrd, F: FnMut() -> T>(func: F, shape: Vec<usize>) -> (outcome:
    Result<ArrayND<T>, ArrayError>)
    requires
        call_requires(func, ()),
    ensures
        generated(func, shape@, outcome),
{
    proof {
        lemma_product_nonnegative(shape@);
    }
    match size_of(&shape) {
        Err(_) => Err(ArrayError::ShapeError),
        Ok(size) => {
            if size == 0 {
                Err(ArrayError::EmptyArrayError)
            } else {
                let values: Vec<T> = produce_values(size, func);
                Ok(ArrayND::assemble(shape, values))
            }
        },
    }
}

/// Builds an array from nested data of any supported rank, as
/// [`ArrayND::new`] does.
pub fn asarray<T: Copy + PartialOrd>(data: ArrayData<T>) -> (outcome: Result<
    ArrayND<T>,
    ArrayError,
>)
    ensures
        built_from(data, outcome),
{
    ArrayND::new(data)
}

} // verus!
