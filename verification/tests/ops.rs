use numrs::ArrayError;
use numrs::ArrayND;

fn grid() -> ArrayND<f64> {
    ArrayND::new2d(vec![vec![1., 2., 3.], vec![4., 5., 6.]]).unwrap()
}

fn counts() -> ArrayND<i32> {
    ArrayND::new2d(vec![vec![-2, 0, 1], vec![5, 1, 12]]).unwrap()
}

#[test]
fn arithmetic_with_a_number() {
    assert_eq!(grid().add(1.5).flatten(), vec![2.5, 3.5, 4.5, 5.5, 6.5, 7.5]);
    assert_eq!(grid().sub(1.).flatten(), vec![0., 1., 2., 3., 4., 5.]);
    assert_eq!(grid().mul(2.).flatten(), vec![2., 4., 6., 8., 10., 12.]);
    assert_eq!(grid().div(2.).flatten(), vec![0.5, 1., 1.5, 2., 2.5, 3.]);
    assert_eq!(counts().add(3).flatten(), vec![1, 3, 4, 8, 4, 15]);
    assert_eq!(counts().sub(3).flatten(), vec![-5, -3, -2, 2, -2, 9]);
    assert_eq!(counts().mul(-2).flatten(), vec![4, 0, -2, -10, -2, -24]);
    assert_eq!(counts().div(2).flatten(), vec![-1, 0, 0, 2, 0, 6]);
}

#[test]
fn arithmetic_keeps_the_shape_and_rescans_the_extrema() {
    let scaled = grid().mul(-1.);
    assert_eq!(scaled.get_shape(), vec![2, 3]);
    assert_eq!(scaled.min(), -6.);
    assert_eq!(scaled.max(), -1.);
    assert_eq!(scaled.size(), 6);
}

#[test]
fn comparisons_answer_with_one_and_zero() {
    assert_eq!(grid().greater(3.).flatten(), vec![0., 0., 0., 1., 1., 1.]);
    assert_eq!(
        grid().greater_equal(3.).flatten(),
        vec![0., 0., 1., 1., 1., 1.]
    );
    assert_eq!(grid().less(3.).flatten(), vec![1., 1., 0., 0., 0., 0.]);
    assert_eq!(
        grid().less_equal(3.).flatten(),
        vec![1., 1., 1., 0., 0., 0.]
    );
    assert_eq!(grid().equal(3.).flatten(), vec![0., 0., 1., 0., 0., 0.]);
    assert_eq!(
        grid().not_equal(3.).flatten(),
        vec![1., 1., 0., 1., 1., 1.]
    );
    assert_eq!(counts().greater(1).flatten(), vec![0, 0, 0, 1, 0, 1]);
    assert_eq!(counts().equal(1).flatten(), vec![0, 0, 1, 0, 1, 0]);
}

#[test]
fn comparisons_with_a_value_that_compares_with_nothing() {
    let array = ArrayND::new1d(vec![1., f64::NAN, 3.]).unwrap();
    assert_eq!(array.greater(2.).flatten(), vec![0., 0., 1.]);
    assert_eq!(array.less(2.).flatten(), vec![1., 0., 0.]);
    assert_eq!(array.equal(f64::NAN).flatten(), vec![0., 0., 0.]);
    assert_eq!(array.not_equal(f64::NAN).flatten(), vec![1., 1., 1.]);
}

#[test]
fn zero_and_one_are_recognised() {
    assert_eq!(counts().is_zero().flatten(), vec![0, 1, 0, 0, 0, 0]);
    assert_eq!(counts().is_one().flatten(), vec![0, 0, 1, 0, 1, 0]);
    let array = ArrayND::new1d(vec![0., 1., -0., 2.]).unwrap();
    assert_eq!(array.is_zero().flatten(), vec![1., 0., 1., 0.]);
    assert_eq!(array.is_one().flatten(), vec![0., 1., 0., 0.]);
}

#[test]
fn clamp_holds_the_elements_in_the_range() {
    assert_eq!(
        grid().clamp(2.5, 4.5).flatten(),
        vec![2.5, 2.5, 3., 4., 4.5, 4.5]
    );
    assert_eq!(counts().clamp(0, 5).flatten(), vec![0, 0, 1, 5, 1, 5]);
    assert_eq!(counts().clamp(1, 1).flatten(), vec![1, 1, 1, 1, 1, 1]);
    let clamped = counts().clamp(0, 5);
    assert_eq!(clamped.min(), 0);
    assert_eq!(clamped.max(), 5);
}

#[test]
fn truth_is_being_above_zero() {
    let left = ArrayND::new1d(vec![1., 1., 0., 0., -1., 0.5]).unwrap();
    let right = || ArrayND::new1d(vec![1., 0., 1., 0., 2., -3.]).unwrap();
    assert_eq!(
        left.and(right()).unwrap().flatten(),
        vec![1., 0., 0., 0., 0., 0.]
    );
    assert_eq!(
        left.or(right()).unwrap().flatten(),
        vec![1., 1., 1., 0., 1., 1.]
    );
    assert_eq!(
        left.xor(right()).unwrap().flatten(),
        vec![0., 1., 1., 0., 1., 1.]
    );
}

#[test]
fn products_position_by_position() {
    let left = ArrayND::new2d(vec![vec![1, 2], vec![3, 4]]).unwrap();
    let right = || ArrayND::new2d(vec![vec![5, 6], vec![7, 8]]).unwrap();
    let product = left.dot(right()).unwrap();
    assert_eq!(product.flatten(), vec![5, 12, 21, 32]);
    assert_eq!(product.get_shape(), vec![2, 2]);
    assert_eq!(left.cross(right()).unwrap().flatten(), vec![5, 12, 21, 32]);
}

#[test]
fn binary_operations_refuse_other_shapes() {
    let left = ArrayND::new1d(vec![1., 2., 3., 4.]).unwrap();
    let other = || ArrayND::new2d(vec![vec![1., 2.], vec![3., 4.]]).unwrap();
    assert_eq!(
        left.and(other()).err(),
        Some(ArrayError::ShapeMismatchError)
    );
    assert_eq!(left.or(other()).err(), Some(ArrayError::ShapeMismatchError));
    assert_eq!(
        left.xor(other()).err(),
        Some(ArrayError::ShapeMismatchError)
    );
    assert_eq!(
        left.dot(other()).err(),
        Some(ArrayError::ShapeMismatchError)
    );
    assert_eq!(
        left.cross(other()).err(),
        Some(ArrayError::ShapeMismatchError)
    );
}
