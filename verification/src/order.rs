//! Comparison of elements, and the smallest and largest element of a
//! sequence.
//!
//! Elements are compared with the `<` and `>` of their type. Of every type
//! the contracts say which comparisons led to a result: [`below`],
//! [`above`]. What these operators compute is known to the proofs only for
//! types whose comparison obeys its spec function; [`ordered`] says so
//! for a type.
use core::cmp::Ordering;
use vstd::prelude::*;
use vstd::std_specs::cmp::PartialEqSpec;
use vstd::std_specs::cmp::PartialOrdSpec;

verus! {

/// The comparison operators of `T` compute what their spec function says.
pub open spec fn ordered<T: PartialOrd>() -> bool {
    T::obeys_partial_cmp_spec()
}

/// The `==` of `T` computes what its spec function says.
pub open spec fn equates<T: PartialEq>() -> bool {
    T::obeys_eq_spec()
}

/// `a == b`, as `T` compares.
pub open spec fn alike<T: PartialEq>(a: T, b: T) -> bool {
    a.eq_spec(&b)
}

/// `a < b`.
pub open spec fn less<T: PartialOrd>(a: T, b: T) -> bool {
    a.partial_cmp_spec(&b) == Some(Ordering::Less)
}

/// `a > b`.
pub open spec fn greater<T: PartialOrd>(a: T, b: T) -> bool {
    a.partial_cmp_spec(&b) == Some(Ordering::Greater)
}

/// `a <= b`.
pub open spec fn at_most<T: PartialOrd>(a: T, b: T) -> bool {
    a.partial_cmp_spec(&b) == Some(Ordering::Less) || a.partial_cmp_spec(&b) == Some(
        Ordering::Equal,
    )
}

/// `a >= b`.
pub open spec fn at_least<T: PartialOrd>(a: T, b: T) -> bool {
    a.partial_cmp_spec(&b) == Some(Ordering::Greater) || a.partial_cmp_spec(&b) == Some(
        Ordering::Equal,
    )
}

/// `answer` is a result of `a < b`.
pub open spec fn below<T: PartialOrd>(a: T, b: T, answer: bool) -> bool {
    call_ensures(<T as PartialOrd>::lt, (&a, &b), answer)
}

/// `answer` is a result of `a > b`.
pub open spec fn above<T: PartialOrd>(a: T, b: T, answer: bool) -> bool {
    call_ensures(<T as PartialOrd>::gt, (&a, &b), answer)
}

/// `answer` is a result of `a <= b`.
pub open spec fn below_or_equal<T: PartialOrd>(a: T, b: T, answer: bool) -> bool {
    call_ensures(<T as PartialOrd>::le, (&a, &b), answer)
}

/// `answer` is a result of `a >= b`.
pub open spec fn above_or_equal<T: PartialOrd>(a: T, b: T, answer: bool) -> bool {
    call_ensures(<T as PartialOrd>::ge, (&a, &b), answer)
}

/// `answer` is a result of `a == b`.
pub open spec fn equal<T: PartialEq>(a: T, b: T, answer: bool) -> bool {
    call_ensures(<T as PartialEq>::eq, (&a, &b), answer)
}

/// `answer` is a result of `a != b`.
pub open spec fn unequal<T: PartialEq>(a: T, b: T, answer: bool) -> bool {
    call_ensures(<T as PartialEq>::ne, (&a, &b), answer)
}

/// `held` is a result of holding `value` between `min` and `max`: `min`
/// where `value < min` answers yes, else `max` where `value > max` answers
/// yes, else `value`.
pub open spec fn held<T: PartialOrd>(value: T, min: T, max: T, held: T) -> bool {
    ||| below(value, min, true) && held == min
    ||| below(value, min, false) && above(value, max, true) && held == max
    ||| below(value, min, false) && above(value, max, false) && held == value
}

/// `value` held between `min` and `max`: `min` where it is below `min`,
/// `max` where it is above `max`, and itself otherwise.
pub open spec fn clamped<T: PartialOrd>(value: T, min: T, max: T) -> T {
    if less(value, min) {
        min
    } else if greater(value, max) {
        max
    } else {
        value
    }
}

/// The values of `s` are totally ordered among themselves: any two of them
/// compare, one way or the other, and `<=` is transitive on them.
///
/// This holds of every sequence of integers. It fails for a sequence that
/// holds a value which compares with nothing, such as a not-a-number.
pub open spec fn chain<T: PartialOrd>(s: Seq<T>) -> bool {
    &&& forall|i: int, j: int|
        0 <= i < s.len() && 0 <= j < s.len() && !#[trigger] less(s[i], s[j]) ==> at_most(
            s[j],
            s[i],
        )
    &&& forall|i: int, j: int|
        0 <= i < s.len() && 0 <= j < s.len() && !#[trigger] greater(s[i], s[j]) ==> at_most(
            s[i],
            s[j],
        )
    &&& forall|i: int, j: int, k: int|
        0 <= i < s.len() && 0 <= j < s.len() && 0 <= k < s.len() && #[trigger] at_most(s[i], s[j])
            && #[trigger] at_most(s[j], s[k]) ==> at_most(s[i], s[k])
}

/// A sequence of totally ordered values stays one without its last value.
pub proof fn lemma_chain_front<T: PartialOrd>(s: Seq<T>)
    requires
        s.len() > 0,
        chain(s),
    ensures
        chain(s.drop_last()),
{
    let front = s.drop_last();
    assert forall|i: int, j: int|
        0 <= i < front.len() && 0 <= j < front.len() && !#[trigger] less(
            front[i],
            front[j],
        ) implies at_most(front[j], front[i]) by {
        assert(!less(s[i], s[j]));
    }
    assert forall|i: int, j: int|
        0 <= i < front.len() && 0 <= j < front.len() && !#[trigger] greater(
            front[i],
            front[j],
        ) implies at_most(front[i], front[j]) by {
        assert(!greater(s[i], s[j]));
    }
    assert forall|i: int, j: int, k: int|
        0 <= i < front.len() && 0 <= j < front.len() && 0 <= k < front.len() && #[trigger] at_most(
            front[i],
            front[j],
        ) && #[trigger] at_most(front[j], front[k]) implies at_most(front[i], front[k]) by {
        assert(at_most(s[i], s[j]) && at_most(s[j], s[k]));
    }
}

/// The smallest element of `s`, found from left to right: the candidate is
/// kept while it is `<` the next element, and replaced by that element
/// otherwise. Meaningful for a non-empty `s`.
pub open spec fn min_of<T: PartialOrd>(s: Seq<T>) -> T
    decreases s.len(),
{
    if s.len() <= 1 {
        s[0]
    } else {
        let kept = min_of(s.drop_last());
        if less(kept, s.last()) {
            kept
        } else {
            s.last()
        }
    }
}

/// The largest element of `s`, found from left to right: the candidate is
/// kept while it is `>` the next element, and replaced by that element
/// otherwise. Meaningful for a non-empty `s`.
pub open spec fn max_of<T: PartialOrd>(s: Seq<T>) -> T
    decreases s.len(),
{
    if s.len() <= 1 {
        s[0]
    } else {
        let kept = max_of(s.drop_last());
        if greater(kept, s.last()) {
            kept
        } else {
            s.last()
        }
    }
}

/// `lowest` is what a scan of a non-empty `s` from left to right finds:
/// the candidate is kept where `candidate < next` answers yes, and
/// replaced by the next element where it answers no.
pub open spec fn scanned_min<T: PartialOrd>(s: Seq<T>, lowest: T) -> bool
    decreases s.len(),
{
    if s.len() <= 1 {
        s.len() == 1 && lowest == s[0]
    } else {
        exists|kept: T, keep: bool|
            scanned_min(s.drop_last(), kept) && #[trigger] below(kept, s.last(), keep) && lowest
                == (if keep {
                kept
            } else {
                s.last()
            })
    }
}

/// `highest` is what a scan of a non-empty `s` from left to right finds:
/// the candidate is kept where `candidate > next` answers yes, and
/// replaced by the next element where it answers no.
pub open spec fn scanned_max<T: PartialOrd>(s: Seq<T>, highest: T) -> bool
    decreases s.len(),
{
    if s.len() <= 1 {
        s.len() == 1 && highest == s[0]
    } else {
        exists|kept: T, keep: bool|
            scanned_max(s.drop_last(), kept) && #[trigger] above(kept, s.last(), keep) && highest
                == (if keep {
                kept
            } else {
                s.last()
            })
    }
}

/// What a scan for the smallest element finds is an element, and for a
/// type whose comparison obeys its spec function it is the smallest
/// element.
pub proof fn lemma_scanned_min<T: PartialOrd>(s: Seq<T>, lowest: T)
    requires
        scanned_min(s, lowest),
    ensures
        s.len() > 0,
        s.contains(lowest),
        ordered::<T>() ==> lowest == min_of(s),
    decreases s.len(),
{
    if s.len() > 1 {
        let (kept, keep) = choose|kept: T, keep: bool|
            scanned_min(s.drop_last(), kept) && #[trigger] below(kept, s.last(), keep) && lowest
                == (if keep {
                kept
            } else {
                s.last()
            });
        lemma_scanned_min(s.drop_last(), kept);
        let at = choose|i: int| 0 <= i < s.drop_last().len() && s.drop_last()[i] == kept;
        assert(s[at] == kept);
        assert(s[s.len() - 1] == s.last());
    } else {
        assert(s[0] == lowest);
    }
}

/// What a scan for the largest element finds is an element, and for a
/// type whose comparison obeys its spec function it is the largest
/// element.
pub proof fn lemma_scanned_max<T: PartialOrd>(s: Seq<T>, highest: T)
    requires
        scanned_max(s, highest),
    ensures
        s.len() > 0,
        s.contains(highest),
        ordered::<T>() ==> highest == max_of(s),
    decreases s.len(),
{
    if s.len() > 1 {
        let (kept, keep) = choose|kept: T, keep: bool|
            scanned_max(s.drop_last(), kept) && #[trigger] above(kept, s.last(), keep) && highest
                == (if keep {
                kept
            } else {
                s.last()
            });
        lemma_scanned_max(s.drop_last(), kept);
        let at = choose|i: int| 0 <= i < s.drop_last().len() && s.drop_last()[i] == kept;
        assert(s[at] == kept);
        assert(s[s.len() - 1] == s.last());
    } else {
        assert(s[0] == highest);
    }
}

/// The smallest element is one of the elements.
pub proof fn lemma_min_is_member<T: PartialOrd>(s: Seq<T>)
    requires
        s.len() > 0,
    ensures
        s.contains(min_of(s)),
    decreases s.len(),
{
    if s.len() > 1 {
        lemma_min_is_member(s.drop_last());
        let kept = min_of(s.drop_last());
        let at = choose|i: int| 0 <= i < s.drop_last().len() && s.drop_last()[i] == kept;
        assert(s[at] == kept);
        assert(s[s.len() - 1] == s.last());
    } else {
        assert(s[0] == min_of(s));
    }
}

/// The largest element is one of the elements.
pub proof fn lemma_max_is_member<T: PartialOrd>(s: Seq<T>)
    requires
        s.len() > 0,
    ensures
        s.contains(max_of(s)),
    decreases s.len(),
{
    if s.len() > 1 {
        lemma_max_is_member(s.drop_last());
        let kept = max_of(s.drop_last());
        let at = choose|i: int| 0 <= i < s.drop_last().len() && s.drop_last()[i] == kept;
        assert(s[at] == kept);
        assert(s[s.len() - 1] == s.last());
    } else {
        assert(s[0] == max_of(s));
    }
}

/// Among totally ordered values the smallest element is `<=` every element.
pub proof fn lemma_min_is_lower_bound<T: PartialOrd>(s: Seq<T>)
    requires
        s.len() > 0,
        chain(s),
    ensures
        forall|i: int| 0 <= i < s.len() ==> at_most(min_of(s), #[trigger] s[i]),
    decreases s.len(),
{
    let end = s.len() - 1;
    assert(s[end] == s.last());
    assert(!less(s[end], s[end]) ==> at_most(s[end], s[end]));
    if s.len() > 1 {
        let front = s.drop_last();
        lemma_chain_front(s);
        lemma_min_is_lower_bound(front);
        lemma_min_is_member(front);
        let kept = min_of(front);
        let kept_at = choose|i: int| 0 <= i < front.len() && front[i] == kept;
        assert(s[kept_at] == kept);
        assert forall|i: int| 0 <= i < s.len() implies at_most(min_of(s), #[trigger] s[i]) by {
            if i < end {
                assert(at_most(kept, front[i]));
                assert(at_most(s[kept_at], s[i]));
            }
            if !less(kept, s.last()) {
                assert(!less(s[kept_at], s[end]));
                assert(at_most(s[end], s[kept_at]));
            }
        }
    }
}

/// Among totally ordered values every element is `<=` the largest element.
pub proof fn lemma_max_is_upper_bound<T: PartialOrd>(s: Seq<T>)
    requires
        s.len() > 0,
        chain(s),
    ensures
        forall|i: int| 0 <= i < s.len() ==> at_most(#[trigger] s[i], max_of(s)),
    decreases s.len(),
{
    let end = s.len() - 1;
    assert(s[end] == s.last());
    assert(!greater(s[end], s[end]) ==> at_most(s[end], s[end]));
    assert(!less(s[end], s[end]) ==> at_most(s[end], s[end]));
    if s.len() > 1 {
        let front = s.drop_last();
        lemma_chain_front(s);
        lemma_max_is_upper_bound(front);
        lemma_max_is_member(front);
        let kept = max_of(front);
        let kept_at = choose|i: int| 0 <= i < front.len() && front[i] == kept;
        assert(s[kept_at] == kept);
        assert forall|i: int| 0 <= i < s.len() implies at_most(#[trigger] s[i], max_of(s)) by {
            if i < end {
                assert(at_most(front[i], kept));
                assert(at_most(s[i], s[kept_at]));
            }
            if greater(kept, s.last()) {
                assert(!less(s[kept_at], s[end]));
                assert(at_most(s[end], s[kept_at]));
            } else {
                assert(!greater(s[kept_at], s[end]));
                assert(at_most(s[kept_at], s[end]));
            }
        }
    }
}

/// Scans `values` from left to right for its smallest element.
pub fn find_min_in<T: Copy + PartialOrd>(values: &Vec<T>) -> (lowest: T)
    requires
        values@.len() > 0,
    ensures
        scanned_min(values@, lowest),
        values@.contains(lowest),
        ordered::<T>() ==> lowest == min_of(values@),
{
    let mut lowest: T = values[0];
    let mut next: usize = 1;
    proof {
        assert(values@.take(1).len() == 1);
        assert(values@.take(1)[0] == values@[0]);
    }
    while next < values.len()
        invariant
            1 <= next <= values@.len(),
            scanned_min(values@.take(next as int), lowest),
        decreases values@.len() - next,
    {
        let candidate: T = values[next];
        let ghost kept = lowest;
        let keep: bool = lowest < candidate;
        if !keep {
            lowest = candidate;
        }
        proof {
            let upto = values@.take(next + 1);
            assert(upto.drop_last() =~= values@.take(next as int));
            assert(upto.last() == candidate);
            assert(below(kept, upto.last(), keep));
        }
        next += 1;
    }
    proof {
        assert(values@.take(next as int) =~= values@);
        lemma_scanned_min(values@, lowest);
    }
    lowest
}

/// Scans `values` from left to right for its largest element.
pub fn find_max_in<T: Copy + PartialOrd>(values: &Vec<T>) -> (highest: T)
    requires
        values@.len() > 0,
    ensures
        scanned_max(values@, highest),
        values@.contains(highest),
        ordered::<T>() ==> highest == max_of(values@),
{
    let mut highest: T = values[0];
    let mut next: usize = 1;
    proof {
        assert(values@.take(1).len() == 1);
        assert(values@.take(1)[0] == values@[0]);
    }
    while next < values.len()
        invariant
            1 <= next <= values@.len(),
            scanned_max(values@.take(next as int), highest),
        decreases values@.len() - next,
    {
        let candidate: T = values[next];
        let ghost kept = highest;
        let keep: bool = highest > candidate;
        if !keep {
            highest = candidate;
        }
        proof {
            let upto = values@.take(next + 1);
            assert(upto.drop_last() =~= values@.take(next as int));
            assert(upto.last() == candidate);
            assert(above(kept, upto.last(), keep));
        }
        next += 1;
    }
    proof {
        assert(values@.take(next as int) =~= values@);
        lemma_scanned_max(values@, highest);
    }
    highest
}

} // verus!
