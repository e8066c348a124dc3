//! Shapes: the per-dimension lengths of an array, and the number of
//! elements they stand for.
use crate::error::ArrayError;
use vstd::arithmetic::mul::*;
use vstd::prelude::*;

verus! {

/// The largest number of dimensions an array can have.
pub const MAX_RANK: usize = 4;

/// Arrays larger than this are summed in parallel by the reduction that
/// chooses its own strategy.
pub const PARALLEL_THRESHOLD: usize = 1_000_000;

/// The product of all components of `shape`; 1 for the empty shape.
pub open spec fn product(shape: Seq<usize>) -> int
    decreases shape.len(),
{
    if shape.len() == 0 {
        1
    } else {
        product(shape.drop_last()) * shape.last()
    }
}

/// `shape` has between one and four dimensions.
pub open spec fn supported_rank(shape: Seq<usize>) -> bool {
    1 <= shape.len() <= MAX_RANK
}

/// `shape` has a supported rank and its element count fits a `usize`.
pub open spec fn representable(shape: Seq<usize>) -> bool {
    supported_rank(shape) && product(shape) <= usize::MAX
}

/// One of the components of `shape` is zero.
pub open spec fn has_zero(shape: Seq<usize>) -> bool {
    exists|d: int| 0 <= d < shape.len() && shape[d] == 0
}

/// A product is never negative.
pub proof fn lemma_product_nonnegative(shape: Seq<usize>)
    ensures
        product(shape) >= 0,
    decreases shape.len(),
{
    if shape.len() > 0 {
        lemma_product_nonnegative(shape.drop_last());
        lemma_mul_nonnegative(product(shape.drop_last()), shape.last() as int);
    }
}

/// A product is zero exactly when one of its components is.
pub proof fn lemma_product_zero(shape: Seq<usize>)
    ensures
        product(shape) == 0 <==> has_zero(shape),
    decreases shape.len(),
{
    if shape.len() > 0 {
        let front = shape.drop_last();
        lemma_product_zero(front);
        lemma_product_nonnegative(front);
        if has_zero(shape) {
            let d = choose|d: int| 0 <= d < shape.len() && shape[d] == 0;
            if d < front.len() {
                assert(front[d] == 0);
                assert(has_zero(front));
            }
            assert(product(shape) == 0) by (nonlinear_arith)
                requires
                    product(shape) == product(front) * shape.last(),
                    product(front) == 0 || shape.last() == 0,
            ;
        }
        if product(shape) == 0 {
            assert(product(front) == 0 || shape.last() == 0) by (nonlinear_arith)
                requires
                    product(front) * shape.last() == 0,
            ;
            if product(front) == 0 {
                let d = choose|d: int| 0 <= d < front.len() && front[d] == 0;
                assert(shape[d] == 0);
            } else {
                assert(shape[shape.len() - 1] == 0);
            }
        }
    }
}

/// Without a zero component, a product is at least as large as the product
/// of any of its prefixes.
pub proof fn lemma_product_grows(shape: Seq<usize>, upto: int)
    requires
        0 <= upto <= shape.len(),
        !has_zero(shape),
    ensures
        1 <= product(shape.take(upto)) <= product(shape),
    decreases shape.len() - upto,
{
    lemma_product_zero(shape.take(upto));
    lemma_product_nonnegative(shape.take(upto));
    if has_zero(shape.take(upto)) {
        let d = choose|d: int| 0 <= d < shape.take(upto).len() && shape.take(upto)[d] == 0;
        assert(shape[d] == 0);
    }
    if upto == shape.len() {
        assert(shape.take(upto) =~= shape);
    } else {
        lemma_product_grows(shape, upto + 1);
        let longer = shape.take(upto + 1);
        assert(longer.drop_last() =~= shape.take(upto));
        assert(longer.last() == shape[upto]);
        assert(shape[upto] != 0);
        assert(product(shape.take(upto)) <= product(longer)) by (nonlinear_arith)
            requires
                product(longer) == product(shape.take(upto)) * shape[upto],
                product(shape.take(upto)) >= 1,
                shape[upto] >= 1,
        ;
    }
}

/// The products of the shapes of rank one to four, written out.
pub proof fn lemma_product_unfold(shape: Seq<usize>)
    requires
        supported_rank(shape),
    ensures
        shape.len() == 1 ==> product(shape) == shape[0],
        shape.len() == 2 ==> product(shape) == shape[0] * shape[1],
        shape.len() == 3 ==> product(shape) == shape[0] * shape[1] * shape[2],
        shape.len() == 4 ==> product(shape) == shape[0] * shape[1] * shape[2] * shape[3],
{
    let s0 = shape.take(0);
    let s1 = shape.take(1);
    let s2 = shape.take(2);
    let s3 = shape.take(3);
    let s4 = shape.take(4);
    assert(product(s0) == 1);
    assert(s1.drop_last() =~= s0);
    assert(product(s1) == 1 * shape[0]);
    if shape.len() >= 2 {
        assert(s2.drop_last() =~= s1);
        assert(product(s2) == product(s1) * shape[1]);
    }
    if shape.len() >= 3 {
        assert(s3.drop_last() =~= s2);
        assert(product(s3) == product(s2) * shape[2]);
    }
    if shape.len() >= 4 {
        assert(s4.drop_last() =~= s3);
        assert(product(s4) == product(s3) * shape[3]);
    }
    assert(shape.take(shape.len() as int) =~= shape);
}

/// Whether one of the components of `shape` is zero.
pub fn has_zero_length(shape: &Vec<usize>) -> (found: bool)
    ensures
        found <==> has_zero(shape@),
{
    let mut at: usize = 0;
    while at < shape.len()
        invariant
            at <= shape@.len(),
            forall|d: int| 0 <= d < at ==> shape@[d] != 0,
        decreases shape@.len() - at,
    {
        if shape[at] == 0 {
            return true;
        }
        at += 1;
    }
    false
}

/// The number of elements of an array of the given shape.
///
/// Fails with `ShapeError` when the shape has no dimension or more than
/// four, or when the count does not fit a `usize`.
pub fn size_of(shape: &Vec<usize>) -> (count: Result<usize, ArrayError>)
    ensures
        representable(shape@) ==> count == Ok::<usize, ArrayError>(product(shape@) as usize),
        !representable(shape@) ==> count == Err::<usize, ArrayError>(ArrayError::ShapeError),
{
    let rank: usize = shape.len();
    if rank == 0 || rank > MAX_RANK {
        return Err(ArrayError::ShapeError);
    }
    proof {
        lemma_product_zero(shape@);
    }
    if has_zero_length(shape) {
        return Ok(0);
    }
    let mut count: usize = 1;
    let mut done: usize = 0;
    while done < rank
        invariant
            rank == shape@.len(),
            1 <= rank <= MAX_RANK,
            done <= rank,
            !has_zero(shape@),
            count == product(shape@.take(done as int)),
        decreases rank - done,
    {
        proof {
            let longer = shape@.take(done + 1);
            assert(longer.drop_last() =~= shape@.take(done as int));
            assert(longer.last() == shape@[done as int]);
            lemma_product_grows(shape@, done + 1);
        }
        match count.checked_mul(shape[done]) {
            Some(more) => {
                count = more;
            },
            None => {
                return Err(ArrayError::ShapeError);
            },
        }
        done += 1;
    }
    proof {
        assert(shape@.take(done as int) =~= shape@);
    }
    Ok(count)
}

/// Checks that `shape` stands for exactly `declared` elements.
///
/// Fails with `ShapeError` when [`size_of`] fails for `shape` or gives
/// another count.
pub fn validate(shape: &Vec<usize>, declared: usize) -> (verdict: Result<(), ArrayError>)
    ensures
        verdict is Ok <==> representable(shape@) && product(shape@) == declared,
        verdict is Err ==> verdict == Err::<(), ArrayError>(ArrayError::ShapeError),
{
    proof {
        lemma_product_nonnegative(shape@);
    }
    match size_of(shape) {
        Ok(count) => {
            if count == declared {
                Ok(())
            } else {
                Err(ArrayError::ShapeError)
            }
        },
        Err(_) => Err(ArrayError::ShapeError),
    }
}

/// Whether two shapes are the same, dimension by dimension.
pub fn same_shape(left: &Vec<usize>, right: &Vec<usize>) -> (same: bool)
    ensures
        same <==> left@ == right@,
{
    if left.len() != right.len() {
        return false;
    }
    let mut at: usize = 0;
    while at < left.len()
        invariant
            left@.len() == right@.len(),
            at <= left@.len(),
            forall|d: int| 0 <= d < at ==> left@[d] == right@[d],
        decreases left@.len() - at,
    {
        if left[at] != right[at] {
            return false;
        }
        at += 1;
    }
    proof {
        assert(left@ =~= right@);
    }
    true
}

} // verus!
