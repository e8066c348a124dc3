use numrs::ArrayError;
use numrs::ArrayND;

#[test]
fn fill_repeats_the_value() {
    let array = ArrayND::fill(29., vec![3, 3]).unwrap();
    assert_eq!(
        array.flatten(),
        vec![29., 29., 29., 29., 29., 29., 29., 29., 29.]
    );
    assert_eq!(array.get_shape(), vec![3, 3]);
    assert_eq!(array.min(), 29.);
    assert_eq!(array.max(), 29.);
}

#[test]
fn fill_refuses_what_generate_refuses() {
    assert_eq!(
        ArrayND::fill(1, vec![]).err(),
        Some(ArrayError::ShapeError)
    );
    assert_eq!(
        ArrayND::fill(1, vec![2, 0]).err(),
        Some(ArrayError::EmptyArrayError)
    );
}

#[test]
fn zeros_and_ones() {
    let zeros: ArrayND<f64> = ArrayND::zeros(vec![2, 2]).unwrap();
    assert_eq!(zeros.flatten(), vec![0., 0., 0., 0.]);
    let ones: ArrayND<f64> = ArrayND::ones(vec![2, 2]).unwrap();
    assert_eq!(ones.flatten(), vec![1., 1., 1., 1.]);
    let ones: ArrayND<i32> = ArrayND::ones(vec![1, 2, 1, 2]).unwrap();
    assert_eq!(ones.flatten(), vec![1, 1, 1, 1]);
    assert_eq!(ones.get_shape(), vec![1, 2, 1, 2]);
    let zeros: ArrayND<u8> = ArrayND::zeros(vec![3]).unwrap();
    assert_eq!(zeros.flatten(), vec![0, 0, 0]);
}

#[test]
fn arange_counts_up_to_the_stop() {
    let array = ArrayND::arange(0., 10., 1.).unwrap();
    assert_eq!(
        array.flatten(),
        vec![0., 1., 2., 3., 4., 5., 6., 7., 8., 9.]
    );
    assert_eq!(array.get_shape(), vec![10]);
}

#[test]
fn arange_takes_steps_of_any_size() {
    let array = ArrayND::arange(1, 10, 4).unwrap();
    assert_eq!(array.flatten(), vec![1, 5, 9]);
    let array = ArrayND::arange(0.5, 2., 0.5).unwrap();
    assert_eq!(array.flatten(), vec![0.5, 1., 1.5]);
    let array = ArrayND::arange(-3, 0, 1).unwrap();
    assert_eq!(array.flatten(), vec![-3, -2, -1]);
    let array = ArrayND::arange(7, 8, 100).unwrap();
    assert_eq!(array.flatten(), vec![7]);
}

#[test]
fn arange_of_nothing_is_refused() {
    assert_eq!(
        ArrayND::arange(5, 5, 1).err(),
        Some(ArrayError::EmptyArrayError)
    );
    assert_eq!(
        ArrayND::arange(6., 5., 1.).err(),
        Some(ArrayError::EmptyArrayError)
    );
}

#[test]
fn random_has_the_shape_asked_for() {
    let array: ArrayND<f64> = ArrayND::random(vec![10]).unwrap();
    let array2d: ArrayND<f64> = ArrayND::random(vec![10, 10]).unwrap();
    assert_eq!(array.size(), 10);
    assert_eq!(array2d.size(), 100);
    assert_eq!(array2d.get_shape(), vec![10, 10]);
    for value in array2d.flatten() {
        assert!(value >= 0. && value < 1.);
    }
    let none: Result<ArrayND<f64>, ArrayError> = ArrayND::random(vec![]);
    assert_eq!(none.err(), Some(ArrayError::ShapeError));
}

#[test]
fn random_range_stays_in_the_range() {
    let array: ArrayND<i64> = ArrayND::random_range(200, 1, 1000).unwrap();
    assert_eq!(array.get_shape(), vec![200]);
    let values = array.flatten();
    for value in values.iter() {
        assert!(*value >= 1 && *value < 1000);
    }
    assert!(values.iter().any(|value| *value != 1));
    assert!(array.min() >= 1 && array.max() < 1000);
    let floats: ArrayND<f64> = ArrayND::random_range(10, 1., 10.).unwrap();
    for value in floats.flatten() {
        assert!(value >= 1. && value < 10.);
    }
    let none: Result<ArrayND<i64>, ArrayError> = ArrayND::random_range(0, 1, 10);
    assert_eq!(none.err(), Some(ArrayError::EmptyArrayError));
}
