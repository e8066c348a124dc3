//! Sums: the left-to-right sum of a sequence, the sums of its pieces when
//! it is split among workers, and the neutral elements the sums start from.
//!
//! Elements are added with the `+` of their type. Of every type the
//! contracts say in which order the elements were added: [`folded`]. What
//! `+` computes is known to the proofs only for types whose addition
//! obeys its spec function; [`adds`] says so for a type, and for such a
//! type the contracts also say which value the sum is. For such a type `+`
//! may be undefined on some pairs (it overflows), and a sum is owed only
//! where every addition on the way is defined.
use crate::arithmetic::added;
use crate::nested::{
    flat2, flat3, flat4, lemma_flat2_push, lemma_flat2_split, lemma_flat3_push, lemma_flat3_split,
    lemma_flat4_push, lemma_flat4_split,
};
use core::ops::Add;
use core::ops::Mul;
use num_traits::One;
use num_traits::Zero;
use rayon::iter::IntoParallelRefIterator;
use rayon::iter::ParallelIterator;
use vstd::prelude::*;
use vstd::std_specs::ops::AddSpec;
use vstd::std_specs::ops::MulSpec;

verus! {

/// The `+` of `T` computes what its spec function says.
pub open spec fn adds<T: Add<Output = T>>() -> bool {
    T::obeys_add_spec()
}

/// The `*` of `T` computes what its spec function says.
pub open spec fn multiplies<T: Mul<Output = T>>() -> bool {
    T::obeys_mul_spec()
}

/// Any two values of `T` can be added.
pub open spec fn always_adds<T: Add<Output = T>>() -> bool {
    forall|a: T, b: T| #[trigger] a.add_req(b)
}

/// `zero` is neutral on the left of `+`: `zero + a` is defined and is `a`.
pub open spec fn additive_identity<T: Add<Output = T>>(zero: T) -> bool {
    adds::<T>() ==> forall|a: T| (#[trigger] zero.add_req(a)) && zero.add_spec(a) == a
}

/// `one` is neutral on the left of `*`: `one * a` is defined and is `a`.
pub open spec fn multiplicative_identity<T: Mul<Output = T>>(one: T) -> bool {
    multiplies::<T>() ==> forall|a: T| (#[trigger] one.mul_req(a)) && one.mul_spec(a) == a
}

/// The elements of `s` added to `start`, one after the other, first to
/// last.
pub open spec fn sum_from<T: Add<Output = T>>(start: T, s: Seq<T>) -> T
    decreases s.len(),
{
    if s.len() == 0 {
        start
    } else {
        sum_from(start, s.drop_last()).add_spec(s.last())
    }
}

/// Every addition that [`sum_from`] makes is defined.
pub open spec fn sum_defined<T: Add<Output = T>>(start: T, s: Seq<T>) -> bool
    decreases s.len(),
{
    s.len() == 0 || (sum_defined(start, s.drop_last()) && sum_from(start, s.drop_last()).add_req(
        s.last(),
    ))
}

/// `sum` is a result of adding the elements of `s` to `start`, one after
/// the other, first to last, with the `+` of `T`.
pub open spec fn folded<T: Add<Output = T>>(start: T, s: Seq<T>, sum: T) -> bool
    decreases s.len(),
{
    if s.len() == 0 {
        sum == start
    } else {
        exists|before: T|
            folded(start, s.drop_last(), before) && #[trigger] added(before, s.last(), sum)
    }
}

/// The elements of `s` can be added to `start` one after the other.
pub open spec fn summable_from<T: Add<Output = T>>(start: T, s: Seq<T>) -> bool {
    always_adds::<T>() || (adds::<T>() && sum_defined(start, s))
}

/// The sum of a non-empty `s`, added up from left to right:
/// `((s[0] + s[1]) + s[2]) + ..`.
pub open spec fn total<T: Add<Output = T>>(s: Seq<T>) -> T {
    sum_from(s[0], s.skip(1))
}

/// The elements of a non-empty `s` can be added up from left to right.
pub open spec fn summable<T: Add<Output = T>>(s: Seq<T>) -> bool {
    always_adds::<T>() || (adds::<T>() && sum_defined(s[0], s.skip(1)))
}

/// `sum` is a left-to-right sum of `s` that started at a neutral element
/// of `+`; for a non-empty `s` and a type whose addition obeys its spec
/// function, it is the total of `s`.
pub open spec fn summed<T: Add<Output = T>>(s: Seq<T>, sum: T) -> bool {
    &&& exists|zero: T| additive_identity(zero) && (#[trigger] folded(zero, s, sum))
    &&& adds::<T>() && s.len() > 0 ==> sum == total(s)
}

/// `cuts` splits a sequence of `length` elements into `cuts.len() - 1`
/// consecutive pieces: piece `k` runs from `cuts[k]` to `cuts[k + 1]`.
pub open spec fn splits(cuts: Seq<int>, length: int) -> bool {
    &&& cuts.len() >= 1
    &&& cuts[0] == 0
    &&& cuts.last() == length
    &&& forall|k: int| 0 <= k < cuts.len() - 1 ==> #[trigger] cuts[k] <= cuts[k + 1]
}

/// `parts` holds, for each piece of the split of `values` by `cuts`, a
/// result of adding the elements of the piece to `zero`, first to last.
pub open spec fn split_folds<T: Add<Output = T>>(
    zero: T,
    values: Seq<T>,
    cuts: Seq<int>,
    parts: Seq<T>,
) -> bool {
    &&& splits(cuts, values.len() as int)
    &&& cuts.len() == parts.len() + 1
    &&& forall|k: int|
        0 <= k < parts.len() ==> folded(
            zero,
            values.subrange(cuts[k], cuts[k + 1]),
            #[trigger] parts[k],
        )
}

/// `parts` holds, for each piece of the split of `values` by `cuts`, the
/// sum of the piece from `zero`.
pub open spec fn split_sums<T: Add<Output = T>>(
    zero: T,
    values: Seq<T>,
    cuts: Seq<int>,
    parts: Seq<T>,
) -> bool {
    &&& splits(cuts, values.len() as int)
    &&& cuts.len() == parts.len() + 1
    &&& forall|k: int|
        0 <= k < parts.len() ==> #[trigger] parts[k] == sum_from(
            zero,
            values.subrange(cuts[k], cuts[k + 1]),
        )
}

/// Every consecutive piece of `values` can be added to `zero`.
pub open spec fn pieces_summable<T: Add<Output = T>>(zero: T, values: Seq<T>) -> bool {
    always_adds::<T>() || (adds::<T>() && forall|from: int, to: int|
        0 <= from <= to <= values.len() ==> sum_defined(
            zero,
            #[trigger] values.subrange(from, to),
        ))
}

/// However `values` is split into consecutive pieces, each piece can be
/// added up from any neutral element, and so can the sums of the pieces.
pub open spec fn split_summable<T: Add<Output = T>>(values: Seq<T>) -> bool {
    always_adds::<T>() || (adds::<T>() && forall|zero: T|
        additive_identity(zero) ==> #[trigger] pieces_summable(zero, values) && forall|
            cuts: Seq<int>,
            parts: Seq<T>,
        | #[trigger]
            split_sums(zero, values, cuts, parts) ==> sum_defined(zero, parts))
}

/// `sum` is what adding up the sums of the pieces of some split of
/// `values` gives, each piece and then the sums added up from left to
/// right, starting at a neutral element of `+`.
pub open spec fn split_total<T: Add<Output = T>>(values: Seq<T>, sum: T) -> bool {
    exists|zero: T, cuts: Seq<int>, parts: Seq<T>|
        additive_identity(zero) && (#[trigger] split_folds(zero, values, cuts, parts)) && folded(
            zero,
            parts,
            sum,
        )
}

/// Adding `right` after `left` is adding `left + right`.
pub proof fn lemma_folded_split<T: Add<Output = T>>(
    start: T,
    left: Seq<T>,
    middle: T,
    right: Seq<T>,
    sum: T,
)
    requires
        folded(start, left, middle),
        folded(middle, right, sum),
    ensures
        folded(start, left + right, sum),
    decreases right.len(),
{
    if right.len() == 0 {
        assert(left + right =~= left);
    } else {
        let before = choose|before: T|
            folded(middle, right.drop_last(), before) && #[trigger] added(
                before,
                right.last(),
                sum,
            );
        lemma_folded_split(start, left, middle, right.drop_last(), before);
        assert((left + right).drop_last() =~= left + right.drop_last());
        assert((left + right).last() == right.last());
    }
}

/// For a type whose addition obeys its spec function, a result of
/// adding the elements of `s` to `start` is the sum of `s` from `start`.
pub proof fn lemma_folded_is_sum<T: Add<Output = T>>(start: T, s: Seq<T>, sum: T)
    requires
        adds::<T>(),
        folded(start, s, sum),
    ensures
        sum == sum_from(start, s),
    decreases s.len(),
{
    if s.len() > 0 {
        let before = choose|before: T|
            folded(start, s.drop_last(), before) && #[trigger] added(before, s.last(), sum);
        lemma_folded_is_sum(start, s.drop_last(), before);
    }
}

/// For a type whose addition obeys its spec function, the results of
/// adding up the pieces of a split are the sums of the pieces.
pub proof fn lemma_split_folds_are_sums<T: Add<Output = T>>(
    zero: T,
    values: Seq<T>,
    cuts: Seq<int>,
    parts: Seq<T>,
)
    requires
        adds::<T>(),
        split_folds(zero, values, cuts, parts),
    ensures
        split_sums(zero, values, cuts, parts),
{
    assert forall|k: int| 0 <= k < parts.len() implies #[trigger] parts[k] == sum_from(
        zero,
        values.subrange(cuts[k], cuts[k + 1]),
    ) by {
        lemma_folded_is_sum(zero, values.subrange(cuts[k], cuts[k + 1]), parts[k]);
    }
}

/// Summing `left + right` is summing `left`, then `right` from there.
pub proof fn lemma_sum_split<T: Add<Output = T>>(start: T, left: Seq<T>, right: Seq<T>)
    ensures
        sum_from(start, left + right) == sum_from(sum_from(start, left), right),
        sum_defined(start, left + right) <==> sum_defined(start, left) && sum_defined(
            sum_from(start, left),
            right,
        ),
    decreases right.len(),
{
    if right.len() == 0 {
        assert(left + right =~= left);
    } else {
        lemma_sum_split(start, left, right.drop_last());
        assert((left + right).drop_last() =~= left + right.drop_last());
        assert((left + right).last() == right.last());
    }
}

/// Started from a neutral element, the sum of a non-empty sequence is its
/// left-to-right total, and is defined where the total is.
pub proof fn lemma_sum_from_zero<T: Add<Output = T>>(zero: T, s: Seq<T>)
    requires
        adds::<T>(),
        additive_identity(zero),
        s.len() > 0,
    ensures
        sum_from(zero, s) == total(s),
        sum_defined(zero, s) <==> sum_defined(s[0], s.skip(1)),
{
    let head = s.take(1);
    assert(head.drop_last() =~= Seq::<T>::empty());
    assert(head.last() == s[0]);
    assert(zero.add_req(s[0]));
    assert(zero.add_spec(s[0]) == s[0]);
    assert(sum_from(zero, head.drop_last()) == zero);
    assert(sum_defined(zero, head.drop_last()));
    assert(sum_from(zero, head) == s[0]);
    assert(sum_defined(zero, head));
    assert(head + s.skip(1) =~= s);
    lemma_sum_split(zero, head, s.skip(1));
}

/// The `+` of `T` is associative wherever the sums on the left are
/// defined: then the sum on the right is defined too, and is the same.
pub open spec fn associative<T: Add<Output = T>>() -> bool {
    forall|a: T, b: T, c: T|
        a.add_req(b) && a.add_spec(b).add_req(c) && b.add_req(c) ==> a.add_req(b.add_spec(c))
            && a.add_spec(b.add_spec(c)) == #[trigger] left_first(a, b, c)
}

/// `(a + b) + c`.
pub open spec fn left_first<T: Add<Output = T>>(a: T, b: T, c: T) -> T {
    a.add_spec(b).add_spec(c)
}

/// Piece `k` of the split of `values` by `cuts`.
pub open spec fn piece<T>(values: Seq<T>, cuts: Seq<int>, k: int) -> Seq<T> {
    values.subrange(cuts[k], cuts[k + 1])
}

/// Every element that is neutral on the left of `+` is neutral on its
/// right too.
pub open spec fn neutral_on_both_sides<T: Add<Output = T>>() -> bool {
    forall|zero: T, a: T|
        additive_identity(zero) ==> (#[trigger] a.add_req(zero)) && a.add_spec(zero) == a
}

/// Where `+` is associative, adding the sum of a piece to a running sum
/// is adding the elements of the piece to it, one after the other.
pub proof fn lemma_add_piece<T: Add<Output = T>>(running: T, zero: T, piece: Seq<T>)
    requires
        adds::<T>(),
        associative::<T>(),
        neutral_on_both_sides::<T>(),
        additive_identity(zero),
        sum_defined(running, piece),
        sum_defined(zero, piece),
    ensures
        running.add_req(sum_from(zero, piece)),
        running.add_spec(sum_from(zero, piece)) == sum_from(running, piece),
    decreases piece.len(),
{
    if piece.len() == 0 {
        assert(running.add_req(zero) && running.add_spec(zero) == running);
    } else {
        let front = piece.drop_last();
        lemma_add_piece(running, zero, front);
        let a = running;
        let b = sum_from(zero, front);
        let c = piece.last();
        assert(a.add_spec(b.add_spec(c)) == left_first(a, b, c));
    }
}

/// Where `+` is associative, the sums of the first `upto` pieces of a
/// split add up to the sum of the elements that those pieces cover.
pub proof fn lemma_pieces_add_up<T: Add<Output = T>>(
    zero: T,
    values: Seq<T>,
    cuts: Seq<int>,
    parts: Seq<T>,
    upto: int,
)
    requires
        adds::<T>(),
        associative::<T>(),
        neutral_on_both_sides::<T>(),
        additive_identity(zero),
        sum_defined(zero, values),
        splits(cuts, values.len() as int),
        cuts.len() == parts.len() + 1,
        forall|k: int|
            0 <= k < parts.len() ==> sum_defined(zero, #[trigger] piece(values, cuts, k)),
        forall|k: int|
            0 <= k < parts.len() ==> parts[k] == sum_from(zero, #[trigger] piece(values, cuts, k)),
        0 <= upto <= parts.len(),
    ensures
        0 <= cuts[upto] <= values.len(),
        sum_defined(zero, parts.take(upto)),
        sum_from(zero, parts.take(upto)) == sum_from(zero, values.take(cuts[upto])),
    decreases upto,
{
    lemma_cuts_ascend(cuts, values.len() as int, upto);
    if upto == 0 {
        assert(parts.take(0) =~= Seq::<T>::empty());
        assert(values.take(0) =~= Seq::<T>::empty());
    } else {
        let k = upto - 1;
        lemma_pieces_add_up(zero, values, cuts, parts, k);
        lemma_cuts_ascend(cuts, values.len() as int, k);
        assert(cuts[k] <= cuts[k + 1]);
        let covered = values.take(cuts[k]);
        let next = piece(values, cuts, k);
        let rest = values.skip(cuts[upto]);
        let running = sum_from(zero, covered);
        assert(sum_defined(zero, next));
        assert(parts[k] == sum_from(zero, next));
        lemma_running_sum(zero, covered, next, rest, values);
        assert(covered + next =~= values.take(cuts[upto]));
        lemma_add_piece(running, zero, next);
        assert(parts.take(upto).drop_last() =~= parts.take(k));
        assert(parts.take(upto).last() == parts[k]);
    }
}

/// Where a sequence can be summed, the part `next` of it can be summed
/// from the sum of the part `before` it, and that gives the sum of both.
pub proof fn lemma_running_sum<T: Add<Output = T>>(
    start: T,
    before: Seq<T>,
    next: Seq<T>,
    rest: Seq<T>,
    whole: Seq<T>,
)
    requires
        sum_defined(start, whole),
        whole =~= (before + next) + rest,
    ensures
        sum_defined(sum_from(start, before), next),
        sum_from(start, before + next) == sum_from(sum_from(start, before), next),
{
    lemma_sum_split(start, before + next, rest);
    lemma_sum_split(start, before, next);
}

/// Where any two values can be added, every sum is defined.
pub proof fn lemma_always_defined<T: Add<Output = T>>(start: T, s: Seq<T>)
    requires
        always_adds::<T>(),
    ensures
        sum_defined(start, s),
    decreases s.len(),
{
    if s.len() > 0 {
        lemma_always_defined(start, s.drop_last());
    }
}

/// The cuts of a split ascend from zero to the length of what is split.
pub proof fn lemma_cuts_ascend(cuts: Seq<int>, length: int, at: int)
    requires
        splits(cuts, length),
        0 <= at < cuts.len(),
    ensures
        0 <= cuts[at] <= length,
    decreases cuts.len() - at,
{
    lemma_cuts_from_zero(cuts, length, at);
    if at < cuts.len() - 1 {
        lemma_cuts_ascend(cuts, length, at + 1);
        assert(cuts[at] <= cuts[at + 1]);
    }
}

/// No cut of a split lies before zero.
pub proof fn lemma_cuts_from_zero(cuts: Seq<int>, length: int, at: int)
    requires
        splits(cuts, length),
        0 <= at < cuts.len(),
    ensures
        0 <= cuts[at],
    decreases at,
{
    if at > 0 {
        lemma_cuts_from_zero(cuts, length, at - 1);
        assert(cuts[at - 1] <= cuts[at - 1 + 1]);
    }
}

/// `first + second`.
pub fn plus<T: Add<Output = T>>(first: T, second: T) -> (sum: T)
    requires
        first.add_req(second),
    ensures
        added(first, second, sum),
        adds::<T>() ==> sum == first.add_spec(second),
{
    first + second
}

/// Adds the elements of `row` to `start`, first to last.
pub fn fold1<T: Copy + Add<Output = T>>(start: T, row: &Vec<T>) -> (sum: T)
    requires
        summable_from(start, row@),
    ensures
        folded(start, row@, sum),
        adds::<T>() ==> sum == sum_from(start, row@),
{
    let mut sum: T = start;
    let mut at: usize = 0;
    while at < row.len()
        invariant
            at <= row@.len(),
            summable_from(start, row@),
            folded(start, row@.take(at as int), sum),
            adds::<T>() ==> sum == sum_from(start, row@.take(at as int)),
        decreases row@.len() - at,
    {
        proof {
            let upto = row@.take(at + 1);
            assert(upto.drop_last() =~= row@.take(at as int));
            assert(upto.last() == row@[at as int]);
            if !always_adds::<T>() {
                assert(upto + row@.skip(at + 1) =~= row@);
                lemma_sum_split(start, upto, row@.skip(at + 1));
            }
        }
        let ghost before = sum;
        sum = sum + row[at];
        proof {
            assert(folded(start, row@.take(at + 1).drop_last(), before));
            assert(added(before, row@.take(at + 1).last(), sum));
        }
        at += 1;
    }
    proof {
        assert(row@.take(at as int) =~= row@);
    }
    sum
}

/// Where a sequence can be summed, the part `next` of it can be summed
/// from the sum of the part `before` it, and that gives the sum of both.
proof fn lemma_next_component<T: Add<Output = T>>(
    start: T,
    before: Seq<T>,
    next: Seq<T>,
    rest: Seq<T>,
    whole: Seq<T>,
)
    requires
        summable_from(start, whole),
        whole == (before + next) + rest,
    ensures
        adds::<T>() ==> summable_from(sum_from(start, before), next),
        sum_from(start, before + next) == sum_from(sum_from(start, before), next),
{
    lemma_sum_split(start, before + next, rest);
    lemma_sum_split(start, before, next);
}

/// Adds the elements of `rows` to `start`, in row-major order.
pub fn fold2<T: Copy + Add<Output = T>>(start: T, rows: &Vec<Vec<T>>) -> (sum: T)
    requires
        summable_from(start, flat2(rows@)),
    ensures
        folded(start, flat2(rows@), sum),
        adds::<T>() ==> sum == sum_from(start, flat2(rows@)),
{
    let mut sum: T = start;
    let mut at: usize = 0;
    proof {
        assert(flat2(rows@.take(0)) =~= Seq::<T>::empty());
    }
    while at < rows.len()
        invariant
            at <= rows@.len(),
            summable_from(start, flat2(rows@)),
            folded(start, flat2(rows@.take(at as int)), sum),
            adds::<T>() ==> sum == sum_from(start, flat2(rows@.take(at as int))),
        decreases rows@.len() - at,
    {
        proof {
            let upto = rows@.take(at + 1);
            assert(upto =~= rows@.take(at as int).push(rows@[at as int]));
            lemma_flat2_push(rows@.take(at as int), rows@[at as int]);
            lemma_flat2_split(rows@, at + 1);
            lemma_next_component(
                start,
                flat2(rows@.take(at as int)),
                rows@[at as int]@,
                flat2(rows@.skip(at + 1)),
                flat2(rows@),
            );
        }
        let ghost before = sum;
        sum = fold1(sum, &rows[at]);
        proof {
            lemma_folded_split(start, flat2(rows@.take(at as int)), before, rows@[at as int]@, sum);
        }
        at += 1;
    }
    proof {
        assert(rows@.take(at as int) =~= rows@);
    }
    sum
}

/// Adds the elements of `planes` to `start`, in row-major order.
pub fn fold3<T: Copy + Add<Output = T>>(start: T, planes: &Vec<Vec<Vec<T>>>) -> (sum: T)
    requires
        summable_from(start, flat3(planes@)),
    ensures
        folded(start, flat3(planes@), sum),
        adds::<T>() ==> sum == sum_from(start, flat3(planes@)),
{
    let mut sum: T = start;
    let mut at: usize = 0;
    proof {
        assert(flat3(planes@.take(0)) =~= Seq::<T>::empty());
    }
    while at < planes.len()
        invariant
            at <= planes@.len(),
            summable_from(start, flat3(planes@)),
            folded(start, flat3(planes@.take(at as int)), sum),
            adds::<T>() ==> sum == sum_from(start, flat3(planes@.take(at as int))),
        decreases planes@.len() - at,
    {
        proof {
            let upto = planes@.take(at + 1);
            assert(upto =~= planes@.take(at as int).push(planes@[at as int]));
            lemma_flat3_push(planes@.take(at as int), planes@[at as int]);
            lemma_flat3_split(planes@, at + 1);
            lemma_next_component(
                start,
                flat3(planes@.take(at as int)),
                flat2(planes@[at as int]@),
                flat3(planes@.skip(at + 1)),
                flat3(planes@),
            );
        }
        let ghost before = sum;
        sum = fold2(sum, &planes[at]);
        proof {
            lemma_folded_split(
                start,
                flat3(planes@.take(at as int)),
                before,
                flat2(planes@[at as int]@),
                sum,
            );
        }
        at += 1;
    }
    proof {
        assert(planes@.take(at as int) =~= planes@);
    }
    sum
}

/// Adds the elements of `cubes` to `start`, in row-major order.
pub fn fold4<T: Copy + Add<Output = T>>(start: T, cubes: &Vec<Vec<Vec<Vec<T>>>>) -> (sum: T)
    requires
        summable_from(start, flat4(cubes@)),
    ensures
        folded(start, flat4(cubes@), sum),
        adds::<T>() ==> sum == sum_from(start, flat4(cubes@)),
{
    let mut sum: T = start;
    let mut at: usize = 0;
    proof {
        assert(flat4(cubes@.take(0)) =~= Seq::<T>::empty());
    }
    while at < cubes.len()
        invariant
            at <= cubes@.len(),
            summable_from(start, flat4(cubes@)),
            folded(start, flat4(cubes@.take(at as int)), sum),
            adds::<T>() ==> sum == sum_from(start, flat4(cubes@.take(at as int))),
        decreases cubes@.len() - at,
    {
        proof {
            let upto = cubes@.take(at + 1);
            assert(upto =~= cubes@.take(at as int).push(cubes@[at as int]));
            lemma_flat4_push(cubes@.take(at as int), cubes@[at as int]);
            lemma_flat4_split(cubes@, at + 1);
            lemma_next_component(
                start,
                flat4(cubes@.take(at as int)),
                flat3(cubes@[at as int]@),
                flat4(cubes@.skip(at + 1)),
                flat4(cubes@),
            );
        }
        let ghost before = sum;
        sum = fold3(sum, &cubes[at]);
        proof {
            lemma_folded_split(
                start,
                flat4(cubes@.take(at as int)),
                before,
                flat3(cubes@[at as int]@),
                sum,
            );
        }
        at += 1;
    }
    proof {
        assert(cubes@.take(at as int) =~= cubes@);
    }
    sum
}

/// The neutral element of `+` on `T`, from [`num_traits::Zero::zero`].
///
/// Trusted: the result is neutral on the left of `+`, which is the law
/// `0 + a = a` that `num_traits` lays down for every implementation of
/// `Zero`. It is claimed only for types whose `+` obeys its spec function.
#[verifier::external_body]
pub(crate) fn zero_of<T: Zero + Add<Output = T>>() -> (zero: T)
    ensures
        additive_identity(zero),
{
    T::zero()
}

/// The neutral element of `*` on `T`, from [`num_traits::One::one`].
///
/// Trusted: the result is neutral on the left of `*`, which is the law
/// `1 * a = a` that `num_traits` lays down for every implementation of
/// `One`. It is claimed only for types whose `*` obeys its spec function.
#[verifier::external_body]
pub(crate) fn one_of<T: One + Mul<Output = T>>() -> (one: T)
    ensures
        multiplicative_identity(one),
{
    T::one()
}

/// The sums of the pieces into which the worker pool splits `values`, from
/// `rayon`'s `par_iter`, `fold` and `collect`.
///
/// Trusted: `fold` hands each worker a run of consecutive elements and has
/// it add them, first to last, to a fresh copy of `zero`; the runs cover
/// `values` in order; `collect` keeps the workers' results in the order of
/// their runs. Where the runs are cut is up to the pool and may differ
/// from call to call.
#[verifier::external_body]
pub(crate) fn sums_of_pieces<T: Copy + Send + Sync + Add<Output = T>>(
    values: &Vec<T>,
    zero: T,
) -> (parts: Vec<T>)
    requires
        pieces_summable(zero, values@),
    ensures
        exists|cuts: Seq<int>| #[trigger] split_folds(zero, values@, cuts, parts@),
{
    values.par_iter().fold(move || zero, |sum: T, value: &T| plus(sum, *value)).collect::<Vec<T>>()
}

} // verus!
