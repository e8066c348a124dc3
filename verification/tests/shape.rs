use numrs::shape::same_shape;
use numrs::shape::size_of;
use numrs::shape::validate;
use numrs::shape::MAX_RANK;
use numrs::shape::PARALLEL_THRESHOLD;
use numrs::ArrayError;

#[test]
fn size_is_the_product_of_the_dimensions() {
    assert_eq!(size_of(&vec![7]), Ok(7));
    assert_eq!(size_of(&vec![2, 5]), Ok(10));
    assert_eq!(size_of(&vec![3, 3, 3]), Ok(27));
    assert_eq!(size_of(&vec![2, 3, 4, 5]), Ok(120));
    assert_eq!(size_of(&vec![1, 1, 1, 1]), Ok(1));
}

#[test]
fn size_of_an_empty_dimension_is_zero() {
    assert_eq!(size_of(&vec![0]), Ok(0));
    assert_eq!(size_of(&vec![4, 0, 2]), Ok(0));
    assert_eq!(size_of(&vec![usize::MAX, usize::MAX, 0]), Ok(0));
}

#[test]
fn size_refuses_unsupported_ranks() {
    assert_eq!(size_of(&vec![]), Err(ArrayError::ShapeError));
    assert_eq!(size_of(&vec![1, 2, 3, 4, 5]), Err(ArrayError::ShapeError));
    assert_eq!(MAX_RANK, 4);
}

#[test]
fn size_refuses_a_count_that_does_not_fit() {
    assert_eq!(size_of(&vec![usize::MAX, 2]), Err(ArrayError::ShapeError));
    assert_eq!(
        size_of(&vec![1 << 32, 1 << 16, 1 << 16]),
        Err(ArrayError::ShapeError)
    );
    assert_eq!(size_of(&vec![usize::MAX, 1, 1, 1]), Ok(usize::MAX));
}

#[test]
fn validate_compares_with_the_declared_size() {
    assert_eq!(validate(&vec![2, 5], 10), Ok(()));
    assert_eq!(validate(&vec![2, 5], 11), Err(ArrayError::ShapeError));
    assert_eq!(validate(&vec![], 1), Err(ArrayError::ShapeError));
    assert_eq!(validate(&vec![0, 3], 0), Ok(()));
    assert_eq!(
        validate(&vec![1, 1, 1, 1, 1], 1),
        Err(ArrayError::ShapeError)
    );
}

#[test]
fn shapes_are_compared_dimension_by_dimension() {
    assert!(same_shape(&vec![2, 3], &vec![2, 3]));
    assert!(!same_shape(&vec![2, 3], &vec![3, 2]));
    assert!(!same_shape(&vec![6], &vec![6, 1]));
    assert!(same_shape(&vec![], &vec![]));
}

#[test]
fn the_threshold_is_a_million() {
    assert_eq!(PARALLEL_THRESHOLD, 1_000_000);
}
