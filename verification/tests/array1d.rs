use numrs::Array1D;

fn get_array_1d_integer() -> Array1D<i32> {
    Array1D::new(vec![1, 2, 3, 4, 5, 6, 7])
}

fn get_array_1d_float() -> Array1D<f64> {
    Array1D::new(vec![1., 2., 3., 4., 5., 6., 7.])
}

#[test]
fn numrs_add_integer() {
    let data_addition_mult = get_array_1d_integer()
        + get_array_1d_integer()
        + get_array_1d_integer()
        + get_array_1d_integer()
        + get_array_1d_integer();
    let array1 = get_array_1d_integer();
    let array2 = get_array_1d_integer();
    let data_addition = array1.clone() + array2;

    assert_eq!(data_addition, Array1D::new(vec![2, 4, 6, 8, 10, 12, 14]));
    assert_eq!(
        array1.clone() + vec![1, 2, 3, 4, 5, 6, 7],
        Array1D::new(vec![2, 4, 6, 8, 10, 12, 14])
    );
    assert_eq!(array1 + 1, Array1D::new(vec![2, 3, 4, 5, 6, 7, 8]));

    let expected_array = Array1D::new(vec![5, 10, 15, 20, 25, 30, 35]);
    assert_eq!(data_addition_mult, expected_array);

    let incorrect_array: Array1D<i32> = Array1D::new(vec![2, 4, 6, 8, 10, 12, 14, 16]);
    assert_ne!(data_addition, incorrect_array);

    let incorrect_array = Array1D::new(vec![2, 4, 6, 8, 10, 12, 123]);
    assert_ne!(data_addition, incorrect_array)
}

#[test]
fn numrs_add_float() {
    let data_addition_mult = get_array_1d_float()
        + get_array_1d_float()
        + get_array_1d_float()
        + get_array_1d_float()
        + get_array_1d_float();
    let array1 = get_array_1d_float();
    let array2 = get_array_1d_float();
    let data_addition = array1.clone() + array2;

    assert_eq!(
        data_addition,
        Array1D::new(vec![2., 4., 6., 8., 10., 12., 14.])
    );
    assert_eq!(
        array1.clone() + vec![1., 2., 3., 4., 5., 6., 7.],
        Array1D::new(vec![2., 4., 6., 8., 10., 12., 14.])
    );
    assert_eq!(array1 + 1., Array1D::new(vec![2., 3., 4., 5., 6., 7., 8.]));

    let expected_array = Array1D::new(vec![5., 10., 15., 20., 25., 30., 35.]);
    assert_eq!(data_addition_mult, expected_array,);

    let incorrect_array = Array1D::new(vec![2., 4., 6., 8., 10., 12., 14., 16.]);
    assert_ne!(data_addition, incorrect_array);

    let incorrect_array = Array1D::new(vec![2., 4., 6., 8., 10., 12., 123.]);
    assert_ne!(data_addition, incorrect_array)
}

#[test]
fn numrs_sub_float() {
    let array1 = get_array_1d_float();
    let array2 = get_array_1d_float();

    assert_eq!(
        array1.clone() - array2,
        Array1D::new(vec![0., 0., 0., 0., 0., 0., 0.])
    );
    assert_eq!(
        array1.clone() - vec![1., 2., 3., 4., 5., 6., 7.],
        Array1D::new(vec![0., 0., 0., 0., 0., 0., 0.])
    );
    assert_eq!(
        array1.clone() - 2.,
        Array1D::new(vec![-1., 0., 1., 2., 3., 4., 5.])
    );
}

#[test]
fn numrs_mul_float() {
    let array1 = get_array_1d_float();
    let array2 = get_array_1d_float();

    assert_eq!(
        array1.clone() * array2,
        Array1D::new(vec![1., 4., 9., 16., 25., 36., 49.])
    );
    assert_eq!(
        array1.clone() * vec![1., 2., 3., 4., 5., 6., 7.],
        Array1D::new(vec![1., 4., 9., 16., 25., 36., 49.])
    );
    assert_eq!(
        array1.clone() * 2.,
        Array1D::new(vec![2., 4., 6., 8., 10., 12., 14.])
    );
    assert_eq!(array1.clone() * 1., array1);
}

#[test]
fn numrs_div_float() {
    let array1 = get_array_1d_float();
    let array2 = get_array_1d_float();

    assert_eq!(
        array1.clone() / array2,
        Array1D::new(vec![1., 1., 1., 1., 1., 1., 1.])
    );
    assert_eq!(
        array1.clone() / vec![1., 2., 3., 4., 5., 6., 7.],
        Array1D::new(vec![1., 1., 1., 1., 1., 1., 1.])
    );
    assert_eq!(
        array1.clone() / 2.,
        Array1D::new(vec![0.5, 1., 1.5, 2., 2.5, 3., 3.5])
    );
    assert_eq!(array1.clone() / 1., array1);
}

#[test]
fn numrs_sum_float() {
    let array1 = get_array_1d_float();

    assert_eq!(array1.sum(), 28.);
    assert_eq!(array1.seq_sum(), 28.);
    assert_eq!(array1.par_sum(), 28.);
}

#[test]
fn numrs_mixed_operation_float() {
    let array1 = get_array_1d_float();
    let array = array1.clone()
        + ((array1.clone() * 2.) - array1.clone()) / ((array1.clone() + array1.clone()) / 2.);

    assert_eq!(array, Array1D::new(vec![2., 3., 4., 5., 6., 7., 8.]));
}

#[test]
fn arange() {
    let array1 = numrs::arange(10);
    assert_eq!(array1, Array1D::new(vec![0, 1, 2, 3, 4, 5, 6, 7, 8, 9]));
}

#[test]
fn random() {
    let array1: Array1D<f64> = Array1D::random(3);
    let array2: Array1D<i64> = Array1D::random_range(3, 1, 10);

    assert_eq!(array1.shape(), (3,));
    assert!(array1.data[0] >= 0. && array1.data[0] < 1.);
    assert!(array2.data[0] >= 1 && array2.data[0] <= 10);
}

#[test]
fn array1d_records_its_extrema() {
    let array = Array1D::new(vec![4, -1, 9, 0]);
    assert_eq!(array.min(), -1);
    assert_eq!(array.max(), 9);
    assert_eq!(array.shape(), (4,));
    let shifted = array + 10;
    assert_eq!(shifted.min(), 9);
    assert_eq!(shifted.max(), 19);
    assert_eq!(shifted.data, vec![14, 9, 19, 10]);
}

#[test]
fn array1d_integer_operators() {
    let left = || Array1D::new(vec![8, 6, -4]);
    let right = || Array1D::new(vec![2, 3, 4]);
    assert_eq!((left() - right()).data, vec![6, 3, -8]);
    assert_eq!((left() * right()).data, vec![16, 18, -16]);
    assert_eq!((left() / right()).data, vec![4, 2, -1]);
    assert_eq!((left() - vec![1, 1, 1]).data, vec![7, 5, -5]);
    assert_eq!((left() * vec![0, 1, 2]).data, vec![0, 6, -8]);
    assert_eq!((left() / vec![8, 6, 4]).data, vec![1, 1, -1]);
    assert_eq!((left() - 1).data, vec![7, 5, -5]);
    assert_eq!((left() * 3).data, vec![24, 18, -12]);
    assert_eq!((left() / 2).data, vec![4, 3, -2]);
}

#[test]
fn array1d_sums_agree() {
    let values: Vec<i64> = (1..=1000).collect();
    let array = Array1D::new(values);
    assert_eq!(array.seq_sum(), 500_500);
    assert_eq!(array.par_sum(), 500_500);
    assert_eq!(array.sum(), 500_500);
    let large = numrs::arange(1_000_001);
    assert_eq!(large.sum(), 500_000_500_000);
    assert_eq!(large.par_sum(), large.seq_sum());
}

#[test]
fn array1d_clone_is_equal() {
    let array = Array1D::new(vec![1.5, 2.5]);
    let copy = array.clone();
    assert_eq!(copy, array);
    assert_eq!(copy.data, vec![1.5, 2.5]);
    assert_eq!(copy.min(), 1.5);
    assert_eq!(copy.max(), 2.5);
    assert!(copy != Array1D::new(vec![1.5, 2.]));
}

#[test]
fn array1d_random_range_stays_in_the_range() {
    let array: Array1D<i64> = Array1D::random_range(200, 1, 1000);
    assert_eq!(array.shape(), (200,));
    for value in array.data.iter() {
        assert!(*value >= 1 && *value < 1000);
    }
    assert!(array.data.iter().any(|value| *value != 1));
}

#[test]
fn arange_counts_from_zero() {
    let array = numrs::arange(4);
    assert_eq!(array.data, vec![0, 1, 2, 3]);
    assert_eq!(array.min(), 0);
    assert_eq!(array.max(), 3);
}
