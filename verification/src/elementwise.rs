//! Element-by-element work on the row-major order of an array.
//!
//! A caller's function is known to the proofs through what it requires and
//! what it ensures. The routines here demand that it accepts every element
//! it will be handed, and promise of each result what the function ensures
//! for the element it was computed from.
use vstd::prelude::*;

verus! {

/// `func` can be called on every element of `input`.
pub open spec fn accepts<T, F: FnMut(T) -> T>(func: F, input: Seq<T>) -> bool {
    forall|i: int| 0 <= i < input.len() ==> call_requires(func, (#[trigger] input[i],))
}

/// `output` holds, position by position, a result of `func` on the element
/// of `input` at that position.
pub open spec fn mapped<T, F: FnMut(T) -> T>(func: F, input: Seq<T>, output: Seq<T>) -> bool {
    &&& output.len() == input.len()
    &&& forall|i: int|
        0 <= i < input.len() ==> call_ensures(func, (input[i],), #[trigger] output[i])
}

/// `func` can be called on every pair of elements that stand at the same
/// position of `left` and `right`.
pub open spec fn accepts_pairs<T, F: FnMut(T, T) -> T>(
    func: F,
    left: Seq<T>,
    right: Seq<T>,
) -> bool {
    forall|i: int|
        0 <= i < left.len() && i < right.len() ==> call_requires(
            func,
            (#[trigger] left[i], right[i]),
        )
}

/// `left` and `right` have the same length, and `output` holds, position by
/// position, a result of `func` on their elements at that position.
pub open spec fn zipped<T, F: FnMut(T, T) -> T>(
    func: F,
    left: Seq<T>,
    right: Seq<T>,
    output: Seq<T>,
) -> bool {
    &&& left.len() == right.len()
    &&& output.len() == left.len()
    &&& forall|i: int|
        0 <= i < left.len() ==> call_ensures(func, (left[i], right[i]), #[trigger] output[i])
}

/// Every element of `output` is a result of `func`.
pub open spec fn produced<T, F: FnMut() -> T>(func: F, output: Seq<T>) -> bool {
    forall|i: int| 0 <= i < output.len() ==> call_ensures(func, (), #[trigger] output[i])
}

/// Applies `func` to every element of `values`, first to last, and collects
/// the results in the same order.
pub fn map_values<T: Copy, F: FnMut(T) -> T>(values: &Vec<T>, mut func: F) -> (results: Vec<T>)
    requires
        accepts(func, values@),
    ensures
        mapped(func, values@, results@),
{
    let ghost given_func = func;
    let mut results: Vec<T> = Vec::new();
    let mut at: usize = 0;
    while at < values.len()
        invariant
            at <= values@.len(),
            func == given_func,
            accepts(func, values@),
            results@.len() == at,
            forall|i: int|
                0 <= i < at ==> call_ensures(func, (values@[i],), #[trigger] results@[i]),
        decreases values@.len() - at,
    {
        let given: T = values[at];
        results.push(func(given));
        at += 1;
    }
    results
}

/// Replaces every element of `values`, first to last, by the result of
/// `func` on it.
pub fn map_in_place<T: Copy, F: FnMut(T) -> T>(values: &mut Vec<T>, mut func: F)
    requires
        accepts(func, old(values)@),
    ensures
        mapped(func, old(values)@, final(values)@),
{
    let ghost given_func = func;
    let mut at: usize = 0;
    while at < values.len()
        invariant
            at <= values@.len(),
            func == given_func,
            values@.len() == old(values)@.len(),
            accepts(func, old(values)@),
            forall|i: int| at <= i < values@.len() ==> values@[i] == old(values)@[i],
            forall|i: int|
                0 <= i < at ==> call_ensures(func, (old(values)@[i],), #[trigger] values@[i]),
        decreases values@.len() - at,
    {
        let given: T = values[at];
        let result: T = func(given);
        values.set(at, result);
        at += 1;
    }
}

/// Applies `func` to the elements of `left` and `right` that stand at the
/// same position, first to last, and collects the results in that order.
pub fn zip_values<T: Copy, F: FnMut(T, T) -> T>(
    left: &Vec<T>,
    right: &Vec<T>,
    mut func: F,
) -> (results: Vec<T>)
    requires
        left@.len() == right@.len(),
        accepts_pairs(func, left@, right@),
    ensures
        zipped(func, left@, right@, results@),
{
    let ghost given_func = func;
    let mut results: Vec<T> = Vec::new();
    let mut at: usize = 0;
    while at < left.len()
        invariant
            at <= left@.len(),
            func == given_func,
            left@.len() == right@.len(),
            accepts_pairs(func, left@, right@),
            results@.len() == at,
            forall|i: int|
                0 <= i < at ==> call_ensures(func, (left@[i], right@[i]), #[trigger] results@[i]),
        decreases left@.len() - at,
    {
        let first: T = left[at];
        let second: T = right[at];
        results.push(func(first, second));
        at += 1;
    }
    results
}

/// Calls `func` `count` times and collects what it returns, in the order
/// of the calls.
pub fn produce_values<T, F: FnMut() -> T>(count: usize, mut func: F) -> (results: Vec<T>)
    requires
        call_requires(func, ()),
    ensures
        results@.len() == count,
        produced(func, results@),
{
    let ghost given_func = func;
    let mut results: Vec<T> = Vec::new();
    let mut made: usize = 0;
    while made < count
        invariant
            made <= count,
            func == given_func,
            call_requires(func, ()),
            results@.len() == made,
            produced(func, results@),
        decreases count - made,
    {
        results.push(func());
        made += 1;
    }
    results
}

} // verus!
