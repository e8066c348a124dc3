//! Laws that relate the operations of an array to one another.
use crate::array::{chosen_sum, parallel_sum, reshaped, sequential_sum, ArrayND};
use crate::error::ArrayError;
use crate::order::{at_most, chain, lemma_max_is_upper_bound, lemma_min_is_lower_bound, ordered};
use crate::reduce::{
    additive_identity, adds, always_adds, associative, folded, lemma_always_defined,
    lemma_cuts_ascend, lemma_folded_is_sum, lemma_pieces_add_up, lemma_split_folds_are_sums,
    lemma_sum_from_zero, neutral_on_both_sides, piece, pieces_summable, split_folds,
    split_summable, sum_defined, sum_from, summable,
};
use crate::shape::{product, representable, PARALLEL_THRESHOLD};
use core::ops::Add;
use vstd::prelude::*;

verus! {

/// Reshaping keeps the row-major order: where the new shape stands for as
/// many elements as the array holds, the reshaped array flattens to what
/// the array flattened to, element for element.
pub proof fn law_reshape_keeps_order<T: PartialOrd>(
    before: ArrayND<T>,
    shape: Seq<usize>,
    outcome: Result<(), ArrayError>,
    after: ArrayND<T>,
)
    requires
        before.wf(),
        representable(shape),
        product(shape) == before.count(),
        reshaped(before, shape, outcome, after),
    ensures
        outcome is Ok,
        after.elements().len() == before.elements().len(),
        forall|i: int|
            0 <= i < before.elements().len() ==> after.elements()[i] == before.elements()[i],
{
}

/// Reshaping to another shape and back to the first gives the array back:
/// the same shape, the same elements at the same positions of the nesting,
/// the same element count and the same extrema.
pub proof fn law_reshape_round_trip<T: PartialOrd>(
    start: ArrayND<T>,
    shape: Seq<usize>,
    there: Result<(), ArrayError>,
    middle: ArrayND<T>,
    back: Result<(), ArrayError>,
    end: ArrayND<T>,
)
    requires
        start.wf(),
        representable(shape),
        product(shape) == start.count(),
        reshaped(start, shape, there, middle),
        reshaped(middle, start.dims(), back, end),
    ensures
        there is Ok,
        back is Ok,
        end.wf(),
        end.dims() == start.dims(),
        end.elements() == start.elements(),
        end.storage().same_nesting(start.storage()),
        end.count() == start.count(),
        end.lowest() == start.lowest(),
        end.highest() == start.highest(),
{
    start.lemma_count_is_product();
    end.storage().lemma_nesting_determined(start.storage());
}

/// Up to a million elements the sum that chooses its strategy is the
/// sequential sum, exactly.
pub proof fn law_small_sum_is_sequential<T: PartialOrd + Add<Output = T>>(
    array: ArrayND<T>,
    by_choice: T,
    by_one_worker: T,
)
    requires
        array.wf(),
        adds::<T>(),
        array.count() <= PARALLEL_THRESHOLD,
        chosen_sum(array, by_choice),
        sequential_sum(array, by_one_worker),
    ensures
        by_choice == by_one_worker,
{
}

/// Where `+` is associative and its neutral elements are neutral on both
/// sides, as they are for the integers, the sum by a pool of workers is
/// the sum by one worker, however the pool splits the elements.
pub proof fn law_parallel_sum_is_sequential<T: PartialOrd + Add<Output = T>>(
    array: ArrayND<T>,
    by_pool: T,
    by_one_worker: T,
)
    requires
        array.wf(),
        adds::<T>(),
        associative::<T>(),
        neutral_on_both_sides::<T>(),
        summable(array.elements()),
        split_summable(array.elements()),
        parallel_sum(array, by_pool),
        sequential_sum(array, by_one_worker),
    ensures
        by_pool == by_one_worker,
{
    let values = array.elements();
    let (zero, cuts, parts) = choose|zero: T, cuts: Seq<int>, parts: Seq<T>|
        additive_identity(zero) && (#[trigger] split_folds(zero, values, cuts, parts)) && folded(
            zero,
            parts,
            by_pool,
        );
    lemma_split_folds_are_sums(zero, values, cuts, parts);
    lemma_folded_is_sum(zero, parts, by_pool);
    lemma_sum_from_zero(zero, values);
    if always_adds::<T>() {
        lemma_always_defined(zero, values);
    }
    assert forall|k: int| 0 <= k < parts.len() implies sum_defined(
        zero,
        #[trigger] piece(values, cuts, k),
    ) by {
        lemma_cuts_ascend(cuts, values.len() as int, k);
        lemma_cuts_ascend(cuts, values.len() as int, k + 1);
        assert(cuts[k] <= cuts[k + 1]);
        if always_adds::<T>() {
            lemma_always_defined(zero, piece(values, cuts, k));
        } else {
            assert(pieces_summable(zero, values));
            assert(sum_defined(zero, values.subrange(cuts[k], cuts[k + 1])));
        }
    }
    assert forall|k: int| 0 <= k < parts.len() implies parts[k] == sum_from(
        zero,
        #[trigger] piece(values, cuts, k),
    ) by {}
    lemma_pieces_add_up(zero, values, cuts, parts, parts.len() as int);
    assert(parts.take(parts.len() as int) =~= parts);
    assert(values.take(cuts[parts.len() as int]) =~= values);
}

/// The recorded extrema bound the elements: where the elements are totally
/// ordered, the smallest is `<=` every element and every element is `<=`
/// the largest.
pub proof fn law_extrema_bound_elements<T: PartialOrd>(array: ArrayND<T>)
    requires
        array.wf(),
        ordered::<T>(),
        chain(array.elements()),
    ensures
        forall|i: int|
            0 <= i < array.elements().len() ==> at_most(
                array.lowest(),
                #[trigger] array.elements()[i],
            ) && at_most(array.elements()[i], array.highest()),
{
    array.lemma_extrema();
    lemma_min_is_lower_bound(array.elements());
    lemma_max_is_upper_bound(array.elements());
}

} // verus!
