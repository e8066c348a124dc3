use numrs::array1d::Array1D;

fn get_array_1d_integer() -> Array1D<i32> {
    Array1D::new(vec![1, 2, 3, 4, 5, 6, 7])
}

fn get_array_1d_float() -> Array1D<f64> {
    Array1D::new(vec![1., 2., 3., 4., 5., 6., 7.])
}

#[test]
fn array_nd_add_integer() {
    let data_addition_mult = get_array_1d_integer()
        + get_array_1d_integer()
        + get_array_1d_integer()
        + get_array_1d_integer()
        + get_array_1d_integer();
    let array1 = get_array_1d_integer();
    let array2 = get_array_1d_integer();
    let data_addition = array1.clone() + array2;

    assert_eq!(data_addition, Array1D::new(vec![2, 4, 6, 8, 10, 12, 14]));
    assert_eq!(
        array1.clone() + vec![1, 2, 3, 4, 5, 6, 7],
        Array1D::new(vec![2, 4, 6, 8, 10, 12, 14])
    );
    assert_eq!(array1 + 1, Array1D::new(vec![2, 3, 4, 5, 6, 7, 8]));

    let expected_array = Array1D::new(vec![5, 10, 15, 20, 25, 30, 35]);
    assert_eq!(data_addition_mult, expected_array);

    let incorrect_array: Array1D<i32> = Array1D::new(vec![2, 4, 6, 8, 10, 12, 14, 16]);
    assert_ne!(data_addition, incorrect_array);

    let incorrect_array = Array1D::new(vec![2, 4, 6, 8, 10, 12, 123]);
    assert_ne!(data_addition, incorrect_array)
}

#[test]
fn array_nd_add_float() {
    let data_addition_mult = get_array_1d_float()
        + get_array_1d_float()
        + get_array_1d_float()
        + get_array_1d_float()
        + get_array_1d_float();
    let array1 = get_array_1d_float();
    let array2 = get_array_1d_float();
    let data_addition = array1.clone() + array2;

    assert_eq!(
        data_addition,
        Array1D::new(vec![2., 4., 6., 8., 10., 12., 14.])
    );
    assert_eq!(
        array1.clone() + vec![1., 2., 3., 4., 5., 6., 7.],
        Array1D::new(vec![2., 4., 6., 8., 10., 12., 14.])
    );
    assert_eq!(array1 + 1., Array1D::new(vec![2., 3., 4., 5., 6., 7., 8.]));

    let expected_array = Array1D::new(vec![5., 10., 15., 20., 25., 30., 35.]);
    assert_eq!(data_addition_mult, expected_array,);

    let incorrect_array = Array1D::new(vec![2., 4., 6., 8., 10., 12., 14., 16.]);
    assert_ne!(data_addition, incorrect_array);

    let incorrect_array = Array1D::new(vec![2., 4., 6., 8., 10., 12., 123.]);
    assert_ne!(data_addition, incorrect_array)
}

#[test]
fn array_nd_sub_float() {
    let array1 = get_array_1d_float();
    let array2 = get_array_1d_float();

    assert_eq!(
        array1.clone() - array2,
        Array1D::new(vec![0., 0., 0., 0., 0., 0., 0.])
    );
    assert_eq!(
        array1.clone() - vec![1., 2., 3., 4., 5., 6., 7.],
        Array1D::new(vec![0., 0., 0., 0., 0., 0., 0.])
    );
    assert_eq!(
        array1.clone() - 2.,
        Array1D::new(vec![-1., 0., 1., 2., 3., 4., 5.])
    );
}

#[test]
fn array_nd_mul_float() {
    let array1 = get_array_1d_float();
    let array2 = get_array_1d_float();

    assert_eq!(
        array1.clone() * array2,
        Array1D::new(vec![1., 4., 9., 16., 25., 36., 49.])
    );
    assert_eq!(
        array1.clone() * vec![1., 2., 3., 4., 5., 6., 7.],
        Array1D::new(vec![1., 4., 9., 16., 25., 36., 49.])
    );
    assert_eq!(
        array1.clone() * 2.,
        Array1D::new(vec![2., 4., 6., 8., 10., 12., 14.])
    );
    assert_eq!(array1.clone() * 1., array1);
}

#[test]
fn array_nd_div_float() {
    let array1 = get_array_1d_float();
    let array2 = get_array_1d_float();

    assert_eq!(
        array1.clone() / array2,
        Array1D::new(vec![1., 1., 1., 1., 1., 1., 1.])
    );
    assert_eq!(
        array1.clone() / vec![1., 2., 3., 4., 5., 6., 7.],
        Array1D::new(vec![1., 1., 1., 1., 1., 1., 1.])
    );
    assert_eq!(
        array1.clone() / 2.,
        Array1D::new(vec![0.5, 1., 1.5, 2., 2.5, 3., 3.5])
    );
    assert_eq!(array1.clone() / 1., array1);
}

#[test]
fn array_nd_sum_float() {
    let array1 = get_array_1d_float();

    let array1_sum = array1.sum();

    assert_eq!(array1_sum, 28.);
}

#[test]
fn array_nd_mixed_operation_float() {
    let array1 = get_array_1d_float();
    let array = array1.clone()
        + ((array1.clone() * 2.) - array1.clone()) / ((array1.clone() + array1.clone()) / 2.);

    assert_eq!(array, Array1D::new(vec![2., 3., 4., 5., 6., 7., 8.]));
}
