//! The one-dimensional array and its arithmetic operators.
use crate::arithmetic::{
    added, differences, divided, multiplied, products, quotients, repeated, subtracted, sums,
};
use crate::elementwise::{accepts, accepts_pairs, map_values, mapped, zip_values, zipped};
use crate::nested::append1;
use crate::order::{
    find_max_in, find_min_in, lemma_scanned_max, lemma_scanned_min, max_of, min_of, ordered,
    scanned_max, scanned_min,
};
use crate::reduce::{
    adds, always_adds, fold1, lemma_split_folds_are_sums, lemma_sum_from_zero, pieces_summable,
    split_folds, split_summable, split_sums, split_total, summable, summed, sums_of_pieces, zero_of,
};
use crate::shape::PARALLEL_THRESHOLD;
use core::ops::Add;
use core::ops::Div;
use core::ops::Mul;
use core::ops::Sub;
use num_traits::Zero;
use vstd::prelude::*;
use vstd::std_specs::cmp::PartialEqSpec;
use vstd::std_specs::cmp::PartialEqSpecImpl;
use vstd::std_specs::ops::AddSpec;
use vstd::std_specs::ops::AddSpecImpl;
use vstd::std_specs::ops::DivSpec;
use vstd::std_specs::ops::DivSpecImpl;
use vstd::std_specs::ops::MulSpec;
use vstd::std_specs::ops::MulSpecImpl;
use vstd::std_specs::ops::SubSpec;
use vstd::std_specs::ops::SubSpecImpl;

verus! {

/// A one-dimensional array: its elements, their number, and the smallest
/// and largest of them.
///
/// Two arrays are equal when they hold equal elements in the same order.
#[derive(Debug)]
pub struct Array1D<T: Copy> {
    /// The elements, first to last.
    pub data: Vec<T>,
    max: T,
    min: T,
    shape: (usize,),
    size: usize,
}

impl<T: Copy> View for Array1D<T> {
    type V = Seq<T>;

    /// The elements, first to last.
    closed spec fn view(&self) -> Seq<T> {
        self.data@
    }
}

impl<T: Copy> Array1D<T> {
    /// The recorded number of elements.
    pub closed spec fn count(self) -> usize {
        self.size
    }

    /// The recorded length of the only dimension.
    pub closed spec fn length(self) -> usize {
        self.shape.0
    }

    /// The recorded smallest element.
    pub closed spec fn lowest(self) -> T {
        self.min
    }

    /// The recorded largest element.
    pub closed spec fn highest(self) -> T {
        self.max
    }
}

impl<T: Copy> Clone for Array1D<T> {
    /// A copy that holds the same elements and the same records.
    fn clone(&self) -> (copy: Array1D<T>)
        ensures
            copy@ == self@,
            copy.count() == self.count(),
            copy.length() == self.length(),
            copy.lowest() == self.lowest(),
            copy.highest() == self.highest(),
    {
        let mut data: Vec<T> = Vec::new();
        append1(&mut data, &self.data);
        proof {
            assert(Seq::<T>::empty() + self.data@ =~= self.data@);
        }
        Array1D { data, max: self.max, min: self.min, shape: (self.shape.0,), size: self.size }
    }
}

impl<T: Copy + PartialOrd> Array1D<T> {
    /// The invariant of an array: it is not empty, the recorded size and
    /// length are the number of elements, and the recorded extrema are the
    /// ones that a scan from left to right finds.
    pub open spec fn wf(self) -> bool {
        &&& self@.len() > 0
        &&& self.count() == self@.len()
        &&& self.length() == self@.len()
        &&& scanned_min(self@, self.lowest())
        &&& scanned_max(self@, self.highest())
    }

    /// Builds an array from its elements, of which there must be at least
    /// one. The extrema are found by a full scan.
    pub fn new(data: Vec<T>) -> (array: Array1D<T>)
        requires
            data@.len() > 0,
        ensures
            array.wf(),
            array@ == data@,
    {
        let min: T = find_min_in(&data);
        let max: T = find_max_in(&data);
        let size: usize = data.len();
        Array1D { shape: (size,), size, data, min, max }
    }

    /// The length of the only dimension.
    pub fn shape(&self) -> (shape: (usize,))
        ensures
            shape.0 == self.length(),
    {
        self.shape
    }

    /// The smallest element, as a scan found it when the array was built.
    pub fn min(&self) -> (lowest: T)
        ensures
            lowest == self.lowest(),
            self.wf() ==> self@.contains(lowest),
            self.wf() && ordered::<T>() ==> lowest == min_of(self@),
    {
        proof {
            if self.wf() {
                lemma_scanned_min(self@, self.min);
            }
        }
        self.min
    }

    /// The largest element, as a scan found it when the array was built.
    pub fn max(&self) -> (highest: T)
        ensures
            highest == self.highest(),
            self.wf() ==> self@.contains(highest),
            self.wf() && ordered::<T>() ==> highest == max_of(self@),
    {
        proof {
            if self.wf() {
                lemma_scanned_max(self@, self.max);
            }
        }
        self.max
    }

    /// Applies `func` to the elements of `self` and `other` that stand at
    /// the same position and builds an array from the results.
    fn pairwise<F: FnMut(T, T) -> T>(&self, other: &Vec<T>, func: F) -> (array: Array1D<T>)
        requires
            self@.len() > 0,
            self@.len() == other@.len(),
            accepts_pairs(func, self@, other@),
        ensures
            array.wf(),
            zipped(func, self@, other@, array@),
    {
        Array1D::new(zip_values(&self.data, other, func))
    }

    /// Applies `func` to every element and builds an array from the
    /// results.
    fn each<F: FnMut(T) -> T>(&self, func: F) -> (array: Array1D<T>)
        requires
            self@.len() > 0,
            accepts(func, self@),
        ensures
            array.wf(),
            mapped(func, self@, array@),
    {
        Array1D::new(map_values(&self.data, func))
    }
}

impl<T: Copy + PartialOrd + Zero + Add<Output = T>> Array1D<T> {
    /// The sum of all elements, added up by one worker: a left fold that
    /// starts at the neutral element of `+`.
    pub fn seq_sum(&self) -> (sum: T)
        requires
            self@.len() > 0,
            summable(self@),
        ensures
            summed(self@, sum),
    {
        let zero: T = zero_of::<T>();
        proof {
            if adds::<T>() {
                lemma_sum_from_zero(zero, self@);
            }
        }
        fold1(zero, &self.data)
    }
}

impl<T: Copy + PartialOrd + Zero + Add<Output = T> + Send + Sync> Array1D<T> {
    /// The sum of all elements, added up by a pool of workers: the
    /// elements are split into consecutive pieces, each piece is added up
    /// from the neutral element of `+` by one worker, and the sums of the
    /// pieces are added up, first piece to last, from that element.
    ///
    /// Where the pieces are cut is up to the pool, so the sum is one of
    /// those that some split gives.
    pub fn par_sum(&self) -> (sum: T)
        requires
            split_summable(self@),
        ensures
            split_total(self@, sum),
    {
        let zero: T = zero_of::<T>();
        let parts: Vec<T> = sums_of_pieces(&self.data, zero);
        proof {
            if !always_adds::<T>() {
                assert(pieces_summable(zero, self@));
                let cuts = choose|cuts: Seq<int>| split_folds(zero, self@, cuts, parts@);
                lemma_split_folds_are_sums(zero, self@, cuts, parts@);
                assert(split_sums(zero, self@, cuts, parts@));
            }
        }
        fold1(zero, &parts)
    }

    /// The sum of all elements, by the strategy that fits the size: by one
    /// worker up to a million elements, as [`Array1D::seq_sum`] does, and
    /// by a pool of workers above, as [`Array1D::par_sum`] does.
    pub fn sum(&self) -> (sum: T)
        requires
            self.wf(),
            self@.len() <= PARALLEL_THRESHOLD ==> summable(self@),
            self@.len() > PARALLEL_THRESHOLD ==> split_summable(self@),
        ensures
            self@.len() <= PARALLEL_THRESHOLD ==> summed(self@, sum),
            self@.len() > PARALLEL_THRESHOLD ==> split_total(self@, sum),
    {
        if self.size > PARALLEL_THRESHOLD {
            self.par_sum()
        } else {
            self.seq_sum()
        }
    }
}

/// The array of the numbers from zero up to, and without, `size`.
pub fn arange(size: i64) -> (array: Array1D<i64>)
    requires
        size > 0,
    ensures
        array.wf(),
        array@.len() == size,
        forall|i: int| 0 <= i < size ==> array@[i] == i,
{
    let mut data: Vec<i64> = Vec::new();
    let mut next: i64 = 0;
    while next < size
        invariant
            0 <= next <= size,
            data@.len() == next,
            forall|i: int| 0 <= i < next ==> data@[i] == i,
        decreases size - next,
    {
        data.push(next);
        next += 1;
    }
    Array1D::new(data)
}

impl<T: Copy + PartialEq> PartialEqSpecImpl for Array1D<T> {
    open spec fn obeys_eq_spec() -> bool {
        T::obeys_eq_spec()
    }

    open spec fn eq_spec(&self, other: &Array1D<T>) -> bool {
        &&& self@.len() == other@.len()
        &&& forall|i: int| 0 <= i < self@.len() ==> (#[trigger] self@[i]).eq_spec(&other@[i])
    }
}

impl<T: Copy + PartialEq> PartialEq for Array1D<T> {
    /// Whether the two arrays hold equal elements in the same order.
    fn eq(&self, other: &Array1D<T>) -> (same: bool) {
        if self.data.len() != other.data.len() {
            return false;
        }
        let mut at: usize = 0;
        while at < self.data.len()
            invariant
                at <= self@.len(),
                self@.len() == other@.len(),
                T::obeys_eq_spec() ==> forall|i: int|
                    0 <= i < at ==> (#[trigger] self@[i]).eq_spec(&other@[i]),
            decreases self@.len() - at,
        {
            if self.data[at] != other.data[at] {
                return false;
            }
            at += 1;
        }
        true
    }
}

impl<T: Copy + PartialOrd + Add<Output = T>> AddSpecImpl<Array1D<T>> for Array1D<T> {
    open spec fn obeys_add_spec() -> bool {
        false
    }

    open spec fn add_req(self, rhs: Array1D<T>) -> bool {
        &&& self@.len() > 0
        &&& self@.len() == rhs@.len()
        &&& forall|i: int| 0 <= i < self@.len() ==> (#[trigger] self@[i]).add_req(rhs@[i])
    }

    open spec fn add_spec(self, rhs: Array1D<T>) -> Array1D<T> {
        arbitrary()
    }
}

impl<T: Copy + PartialOrd + Add<Output = T>> Add<Array1D<T>> for Array1D<T> {
    type Output = Array1D<T>;

    /// The array of the sums of the elements at the same position. The
    /// two arrays must have the same length.
    fn add(self, rhs: Array1D<T>) -> (array: Array1D<T>)
        ensures
            array.wf(),
            sums(self@, rhs@, array@),
    {
        let combine = |a: T, b: T| -> (c: T)
            requires
                a.add_req(b),
            ensures
                T::obeys_add_spec() ==> c == a.add_spec(b),
                added(a, b, c),
            { a + b };
        self.pairwise(&rhs.data, combine)
    }
}

impl<T: Copy + PartialOrd + Add<Output = T>> AddSpecImpl<Vec<T>> for Array1D<T> {
    open spec fn obeys_add_spec() -> bool {
        false
    }

    open spec fn add_req(self, rhs: Vec<T>) -> bool {
        &&& self@.len() > 0
        &&& self@.len() == rhs@.len()
        &&& forall|i: int| 0 <= i < self@.len() ==> (#[trigger] self@[i]).add_req(rhs@[i])
    }

    open spec fn add_spec(self, rhs: Vec<T>) -> Array1D<T> {
        arbitrary()
    }
}

impl<T: Copy + PartialOrd + Add<Output = T>> Add<Vec<T>> for Array1D<T> {
    type Output = Array1D<T>;

    /// The array of the sums of the elements of the array and of the
    /// vector at the same position. The two must have the same length.
    fn add(self, rhs: Vec<T>) -> (array: Array1D<T>)
        ensures
            array.wf(),
            sums(self@, rhs@, array@),
    {
        let combine = |a: T, b: T| -> (c: T)
            requires
                a.add_req(b),
            ensures
                T::obeys_add_spec() ==> c == a.add_spec(b),
                added(a, b, c),
            { a + b };
        self.pairwise(&rhs, combine)
    }
}

impl<T: Copy + PartialOrd + Add<Output = T>> AddSpecImpl<T> for Array1D<T> {
    open spec fn obeys_add_spec() -> bool {
        false
    }

    open spec fn add_req(self, rhs: T) -> bool {
        &&& self@.len() > 0
        &&& forall|i: int| 0 <= i < self@.len() ==> (#[trigger] self@[i]).add_req(rhs)
    }

    open spec fn add_spec(self, rhs: T) -> Array1D<T> {
        arbitrary()
    }
}

impl<T: Copy + PartialOrd + Add<Output = T>> Add<T> for Array1D<T> {
    type Output = Array1D<T>;

    /// The array of the sums of each element and `rhs`.
    fn add(self, rhs: T) -> (array: Array1D<T>)
        ensures
            array.wf(),
            sums(self@, repeated(rhs, self@), array@),
    {
        let combine = |a: T| -> (c: T)
            requires
                a.add_req(rhs),
            ensures
                T::obeys_add_spec() ==> c == a.add_spec(rhs),
                added(a, rhs, c),
            { a + rhs };
        self.each(combine)
    }
}

impl<T: Copy + PartialOrd + Sub<Output = T>> SubSpecImpl<Array1D<T>> for Array1D<T> {
    open spec fn obeys_sub_spec() -> bool {
        false
    }

    open spec fn sub_req(self, rhs: Array1D<T>) -> bool {
        &&& self@.len() > 0
        &&& self@.len() == rhs@.len()
        &&& forall|i: int| 0 <= i < self@.len() ==> (#[trigger] self@[i]).sub_req(rhs@[i])
    }

    open spec fn sub_spec(self, rhs: Array1D<T>) -> Array1D<T> {
        arbitrary()
    }
}

impl<T: Copy + PartialOrd + Sub<Output = T>> Sub<Array1D<T>> for Array1D<T> {
    type Output = Array1D<T>;

    /// The array of the differences of the elements at the same position. The
    /// two arrays must have the same length.
    fn sub(self, rhs: Array1D<T>) -> (array: Array1D<T>)
        ensures
            array.wf(),
            differences(self@, rhs@, array@),
    {
        let combine = |a: T, b: T| -> (c: T)
            requires
                a.sub_req(b),
            ensures
                T::obeys_sub_spec() ==> c == a.sub_spec(b),
                subtracted(a, b, c),
            { a - b };
        self.pairwise(&rhs.data, combine)
    }
}

impl<T: Copy + PartialOrd + Sub<Output = T>> SubSpecImpl<Vec<T>> for Array1D<T> {
    open spec fn obeys_sub_spec() -> bool {
        false
    }

    open spec fn sub_req(self, rhs: Vec<T>) -> bool {
        &&& self@.len() > 0
        &&& self@.len() == rhs@.len()
        &&& forall|i: int| 0 <= i < self@.len() ==> (#[trigger] self@[i]).sub_req(rhs@[i])
    }

    open spec fn sub_spec(self, rhs: Vec<T>) -> Array1D<T> {
        arbitrary()
    }
}

impl<T: Copy + PartialOrd + Sub<Output = T>> Sub<Vec<T>> for Array1D<T> {
    type Output = Array1D<T>;

    /// The array of the differences of the elements of the array and of the
    /// vector at the same position. The two must have the same length.
    fn sub(self, rhs: Vec<T>) -> (array: Array1D<T>)
        ensures
            array.wf(),
            differences(self@, rhs@, array@),
    {
        let combine = |a: T, b: T| -> (c: T)
            requires
                a.sub_req(b),
            ensures
                T::obeys_sub_spec() ==> c == a.sub_spec(b),
                subtracted(a, b, c),
            { a - b };
        self.pairwise(&rhs, combine)
    }
}

impl<T: Copy + PartialOrd + Sub<Output = T>> SubSpecImpl<T> for Array1D<T> {
    open spec fn obeys_sub_spec() -> bool {
        false
    }

    open spec fn sub_req(self, rhs: T) -> bool {
        &&& self@.len() > 0
        &&& forall|i: int| 0 <= i < self@.len() ==> (#[trigger] self@[i]).sub_req(rhs)
    }

    open spec fn sub_spec(self, rhs: T) -> Array1D<T> {
        arbitrary()
    }
}

impl<T: Copy + PartialOrd + Sub<Output = T>> Sub<T> for Array1D<T> {
    type Output = Array1D<T>;

    /// The array of the differences of each element and `rhs`.
    fn sub(self, rhs: T) -> (array: Array1D<T>)
        ensures
            array.wf(),
            differences(self@, repeated(rhs, self@), array@),
    {
        let combine = |a: T| -> (c: T)
            requires
                a.sub_req(rhs),
            ensures
                T::obeys_sub_spec() ==> c == a.sub_spec(rhs),
                subtracted(a, rhs, c),
            { a - rhs };
        self.each(combine)
    }
}

impl<T: Copy + PartialOrd + Mul<Output = T>> MulSpecImpl<Array1D<T>> for Array1D<T> {
    open spec fn obeys_mul_spec() -> bool {
        false
    }

    open spec fn mul_req(self, rhs: Array1D<T>) -> bool {
        &&& self@.len() > 0
        &&& self@.len() == rhs@.len()
        &&& forall|i: int| 0 <= i < self@.len() ==> (#[trigger] self@[i]).mul_req(rhs@[i])
    }

    open spec fn mul_spec(self, rhs: Array1D<T>) -> Array1D<T> {
        arbitrary()
    }
}

impl<T: Copy + PartialOrd + Mul<Output = T>> Mul<Array1D<T>> for Array1D<T> {
    type Output = Array1D<T>;

    /// The array of the products of the elements at the same position. The
    /// two arrays must have the same length.
    fn mul(self, rhs: Array1D<T>) -> (array: Array1D<T>)
        ensures
            array.wf(),
            products(self@, rhs@, array@),
    {
        let combine = |a: T, b: T| -> (c: T)
            requires
                a.mul_req(b),
            ensures
                T::obeys_mul_spec() ==> c == a.mul_spec(b),
                multiplied(a, b, c),
            { a * b };
        self.pairwise(&rhs.data, combine)
    }
}

impl<T: Copy + PartialOrd + Mul<Output = T>> MulSpecImpl<Vec<T>> for Array1D<T> {
    open spec fn obeys_mul_spec() -> bool {
        false
    }

    open spec fn mul_req(self, rhs: Vec<T>) -> bool {
        &&& self@.len() > 0
        &&& self@.len() == rhs@.len()
        &&& forall|i: int| 0 <= i < self@.len() ==> (#[trigger] self@[i]).mul_req(rhs@[i])
    }

    open spec fn mul_spec(self, rhs: Vec<T>) -> Array1D<T> {
        arbitrary()
    }
}

impl<T: Copy + PartialOrd + Mul<Output = T>> Mul<Vec<T>> for Array1D<T> {
    type Output = Array1D<T>;

    /// The array of the products of the elements of the array and of the
    /// vector at the same position. The two must have the same length.
    fn mul(self, rhs: Vec<T>) -> (array: Array1D<T>)
        ensures
            array.wf(),
            products(self@, rhs@, array@),
    {
        let combine = |a: T, b: T| -> (c: T)
            requires
                a.mul_req(b),
            ensures
                T::obeys_mul_spec() ==> c == a.mul_spec(b),
                multiplied(a, b, c),
            { a * b };
        self.pairwise(&rhs, combine)
    }
}

impl<T: Copy + PartialOrd + Mul<Output = T>> MulSpecImpl<T> for Array1D<T> {
    open spec fn obeys_mul_spec() -> bool {
        false
    }

    open spec fn mul_req(self, rhs: T) -> bool {
        &&& self@.len() > 0
        &&& forall|i: int| 0 <= i < self@.len() ==> (#[trigger] self@[i]).mul_req(rhs)
    }

    open spec fn mul_spec(self, rhs: T) -> Array1D<T> {
        arbitrary()
    }
}

impl<T: Copy + PartialOrd + Mul<Output = T>> Mul<T> for Array1D<T> {
    type Output = Array1D<T>;

    /// The array of the products of each element and `rhs`.
    fn mul(self, rhs: T) -> (array: Array1D<T>)
        ensures
            array.wf(),
            products(self@, repeated(rhs, self@), array@),
    {
        let combine = |a: T| -> (c: T)
            requires
                a.mul_req(rhs),
            ensures
                T::obeys_mul_spec() ==> c == a.mul_spec(rhs),
                multiplied(a, rhs, c),
            { a * rhs };
        self.each(combine)
    }
}

impl<T: Copy + PartialOrd + Div<Output = T>> DivSpecImpl<Array1D<T>> for Array1D<T> {
    open spec fn obeys_div_spec() -> bool {
        false
    }

    open spec fn div_req(self, rhs: Array1D<T>) -> bool {
        &&& self@.len() > 0
        &&& self@.len() == rhs@.len()
        &&& forall|i: int| 0 <= i < self@.len() ==> (#[trigger] self@[i]).div_req(rhs@[i])
    }

    open spec fn div_spec(self, rhs: Array1D<T>) -> Array1D<T> {
        arbitrary()
    }
}

impl<T: Copy + PartialOrd + Div<Output = T>> Div<Array1D<T>> for Array1D<T> {
    type Output = Array1D<T>;

    /// The array of the quotients of the elements at the same position. The
    /// two arrays must have the same length.
    fn div(self, rhs: Array1D<T>) -> (array: Array1D<T>)
        ensures
            array.wf(),
            quotients(self@, rhs@, array@),
    {
        let combine = |a: T, b: T| -> (c: T)
            requires
                a.div_req(b),
            ensures
                T::obeys_div_spec() ==> c == a.div_spec(b),
                divided(a, b, c),
            { a / b };
        self.pairwise(&rhs.data, combine)
    }
}

impl<T: Copy + PartialOrd + Div<Output = T>> DivSpecImpl<Vec<T>> for Array1D<T> {
    open spec fn obeys_div_spec() -> bool {
        false
    }

    open spec fn div_req(self, rhs: Vec<T>) -> bool {
        &&& self@.len() > 0
        &&& self@.len() == rhs@.len()
        &&& forall|i: int| 0 <= i < self@.len() ==> (#[trigger] self@[i]).div_req(rhs@[i])
    }

    open spec fn div_spec(self, rhs: Vec<T>) -> Array1D<T> {
        arbitrary()
    }
}

impl<T: Copy + PartialOrd + Div<Output = T>> Div<Vec<T>> for Array1D<T> {
    type Output = Array1D<T>;

    /// The array of the quotients of the elements of the array and of the
    /// vector at the same position. The two must have the same length.
    fn div(self, rhs: Vec<T>) -> (array: Array1D<T>)
        ensures
            array.wf(),
            quotients(self@, rhs@, array@),
    {
        let combine = |a: T, b: T| -> (c: T)
            requires
                a.div_req(b),
            ensures
                T::obeys_div_spec() ==> c == a.div_spec(b),
                divided(a, b, c),
            { a / b };
        self.pairwise(&rhs, combine)
    }
}

impl<T: Copy + PartialOrd + Div<Output = T>> DivSpecImpl<T> for Array1D<T> {
    open spec fn obeys_div_spec() -> bool {
        false
    }

    open spec fn div_req(self, rhs: T) -> bool {
        &&& self@.len() > 0
        &&& forall|i: int| 0 <= i < self@.len() ==> (#[trigger] self@[i]).div_req(rhs)
    }

    open spec fn div_spec(self, rhs: T) -> Array1D<T> {
        arbitrary()
    }
}

impl<T: Copy + PartialOrd + Div<Output = T>> Div<T> for Array1D<T> {
    type Output = Array1D<T>;

    /// The array of the quotients of each element and `rhs`.
    fn div(self, rhs: T) -> (array: Array1D<T>)
        ensures
            array.wf(),
            quotients(self@, repeated(rhs, self@), array@),
    {
        let combine = |a: T| -> (c: T)
            requires
                a.div_req(rhs),
            ensures
                T::obeys_div_spec() ==> c == a.div_spec(rhs),
                divided(a, rhs, c),
            { a / rhs };
        self.each(combine)
    }
}

} // verus!
