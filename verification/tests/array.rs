use numrs::asarray;
use numrs::generate;
use numrs::ArrayData;
use numrs::ArrayError;
use numrs::ArrayND;

fn get_array_1d_float() -> ArrayND<f64> {
    asarray(ArrayData::OneD(vec![1., 2., 3., 4., 5., 6., 7.])).unwrap()
}

fn get_array_2d_float() -> ArrayND<f64> {
    ArrayND::new2d(vec![vec![1., 2., 3.], vec![4., 5., 6.], vec![7., 8., 9.]]).unwrap()
}

fn get_array_3d_float() -> ArrayND<f64> {
    ArrayND::new3d(vec![
        vec![vec![1., 2., 3.], vec![4., 5., 6.], vec![7., 8., 9.]],
        vec![
            vec![10., 11., 12.],
            vec![13., 14., 15.],
            vec![16., 17., 18.],
        ],
        vec![
            vec![19., 20., 21.],
            vec![22., 23., 24.],
            vec![25., 26., 27.],
        ],
    ])
    .unwrap()
}

fn get_array_4d_integer() -> ArrayND<i64> {
    ArrayND::new4d(vec![
        vec![
            vec![vec![0, 1], vec![2, 3], vec![4, 5]],
            vec![vec![6, 7], vec![8, 9], vec![10, 11]],
        ],
        vec![
            vec![vec![12, 13], vec![14, 15], vec![16, 17]],
            vec![vec![18, 19], vec![20, 21], vec![22, 23]],
        ],
    ])
    .unwrap()
}

#[test]
fn lib_sum_float() {
    let array1d = get_array_1d_float();
    assert_eq!(array1d.sum(), 28.);

    let array2d = get_array_2d_float();
    assert_eq!(array2d.sum(), 45.);

    let array3d = get_array_3d_float();
    assert_eq!(array3d.sum(), 378.);
}

#[test]
fn rank1_sum_and_extrema() {
    let array = get_array_1d_float();
    assert_eq!(array.sum(), 28.);
    assert_eq!(array.min(), 1.);
    assert_eq!(array.max(), 7.);
    assert_eq!(array.size(), 7);
    assert_eq!(array.get_shape(), vec![7]);
}

#[test]
fn shape_is_read_off_the_nesting() {
    assert_eq!(get_array_2d_float().get_shape(), vec![3, 3]);
    assert_eq!(get_array_3d_float().get_shape(), vec![3, 3, 3]);
    assert_eq!(get_array_4d_integer().get_shape(), vec![2, 2, 3, 2]);
    assert_eq!(get_array_4d_integer().size(), 24);
}

#[test]
fn flatten_is_row_major() {
    assert_eq!(
        get_array_2d_float().flatten(),
        vec![1., 2., 3., 4., 5., 6., 7., 8., 9.]
    );
    let expected: Vec<i64> = (0..24).collect();
    assert_eq!(get_array_4d_integer().flatten(), expected);
    let expected: Vec<f64> = (1..28).map(|v| v as f64).collect();
    assert_eq!(get_array_3d_float().flatten(), expected);
}

#[test]
fn sequential_and_parallel_sums_agree_on_integers() {
    let array = get_array_4d_integer();
    assert_eq!(array.seq_sum(), 276);
    assert_eq!(array.par_sum(), 276);
    assert_eq!(array.sum(), array.seq_sum());
}

#[test]
fn parallel_sum_above_the_threshold() {
    let values: Vec<i64> = (0..1_000_001).collect();
    let array = ArrayND::new1d(values).unwrap();
    assert_eq!(array.par_sum(), 500_000_500_000);
    assert_eq!(array.sum(), 500_000_500_000);
    assert_eq!(array.seq_sum(), 500_000_500_000);
}

#[test]
fn extrema_bound_every_element() {
    let array = ArrayND::new2d(vec![vec![4, -2, 9], vec![0, 9, -7]]).unwrap();
    assert_eq!(array.min(), -7);
    assert_eq!(array.max(), 9);
    for element in array.flatten() {
        assert!(array.min() <= element && element <= array.max());
    }
}

#[test]
fn empty_input_is_refused() {
    let nothing: Vec<f64> = vec![];
    assert_eq!(
        ArrayND::new1d(nothing).err(),
        Some(ArrayError::EmptyArrayError)
    );
    let no_rows: Vec<Vec<f64>> = vec![];
    assert_eq!(
        ArrayND::new2d(no_rows).err(),
        Some(ArrayError::EmptyArrayError)
    );
    let empty_rows: Vec<Vec<f64>> = vec![vec![], vec![]];
    assert_eq!(
        ArrayND::new2d(empty_rows).err(),
        Some(ArrayError::EmptyArrayError)
    );
    let empty_plane: Vec<Vec<Vec<i32>>> = vec![vec![vec![]]];
    assert_eq!(
        ArrayND::new(ArrayData::ThreeD(empty_plane)).err(),
        Some(ArrayError::EmptyArrayError)
    );
    let empty_cube: Vec<Vec<Vec<Vec<i32>>>> = vec![vec![]];
    assert_eq!(
        asarray(ArrayData::FourD(empty_cube)).err(),
        Some(ArrayError::EmptyArrayError)
    );
}

#[test]
fn from_flat_nests_by_the_index_formula() {
    let values: Vec<i64> = (0..24).collect();
    let array = ArrayND::from_flat(vec![2, 3, 4], values.clone()).unwrap();
    assert_eq!(array.get_shape(), vec![2, 3, 4]);
    assert_eq!(array.flatten(), values);
    let direct = ArrayND::new3d(vec![
        vec![vec![0, 1, 2, 3], vec![4, 5, 6, 7], vec![8, 9, 10, 11]],
        vec![
            vec![12, 13, 14, 15],
            vec![16, 17, 18, 19],
            vec![20, 21, 22, 23],
        ],
    ])
    .unwrap();
    assert_eq!(array.flatten(), direct.flatten());
    assert_eq!(array.get_shape(), direct.get_shape());
    assert_eq!(array.min(), 0);
    assert_eq!(array.max(), 23);
}

#[test]
fn from_flat_refuses_a_shape_that_does_not_fit() {
    assert_eq!(
        ArrayND::from_flat(vec![2, 3], vec![1, 2, 3, 4, 5]).err(),
        Some(ArrayError::ShapeError)
    );
    assert_eq!(
        ArrayND::from_flat(vec![], vec![1]).err(),
        Some(ArrayError::ShapeError)
    );
    assert_eq!(
        ArrayND::from_flat(vec![1, 1, 1, 1, 1], vec![1]).err(),
        Some(ArrayError::ShapeError)
    );
    let nothing: Vec<i32> = vec![];
    assert_eq!(
        ArrayND::from_flat(vec![3, 0], nothing).err(),
        Some(ArrayError::EmptyArrayError)
    );
}

#[test]
fn reshape_then_flatten_keeps_the_order() {
    let mut array =
        ArrayND::new1d(vec![0., 1., 2., 3., 4., 5., 6., 7., 8., 9.]).unwrap();
    assert_eq!(array.reshape(vec![2, 5]), Ok(()));
    assert_eq!(array.get_shape(), vec![2, 5]);
    assert_eq!(
        array.flatten(),
        vec![0., 1., 2., 3., 4., 5., 6., 7., 8., 9.]
    );
    assert_eq!(array.min(), 0.);
    assert_eq!(array.max(), 9.);
    assert_eq!(array.size(), 10);
}

#[test]
fn reshape_to_every_rank() {
    let values: Vec<i32> = (0..16).collect();
    let mut array = ArrayND::new1d(values.clone()).unwrap();
    for shape in [
        vec![4, 4],
        vec![2, 2, 4],
        vec![2, 2, 2, 2],
        vec![1, 16],
        vec![16, 1, 1],
        vec![16],
    ] {
        assert_eq!(array.reshape(shape.clone()), Ok(()));
        assert_eq!(array.get_shape(), shape);
        assert_eq!(array.flatten(), values);
    }
}

#[test]
fn reshape_round_trip_gives_the_array_back() {
    let first = get_array_3d_float();
    let mut array = first.clone();
    assert_eq!(array.reshape(vec![9, 3]), Ok(()));
    assert_eq!(array.reshape(first.get_shape()), Ok(()));
    assert_eq!(array.get_shape(), first.get_shape());
    assert_eq!(array.flatten(), first.flatten());
    assert_eq!(array.min(), first.min());
    assert_eq!(array.max(), first.max());
    assert_eq!(array.size(), first.size());
}

#[test]
fn reshape_refuses_another_size_and_changes_nothing() {
    let mut array = get_array_2d_float();
    assert_eq!(array.reshape(vec![2, 5]), Err(ArrayError::ShapeError));
    assert_eq!(array.reshape(vec![]), Err(ArrayError::ShapeError));
    assert_eq!(
        array.reshape(vec![1, 1, 1, 3, 3]),
        Err(ArrayError::ShapeError)
    );
    assert_eq!(array.reshape(vec![0, 9]), Err(ArrayError::ShapeError));
    assert_eq!(array.get_shape(), vec![3, 3]);
    assert_eq!(
        array.flatten(),
        vec![1., 2., 3., 4., 5., 6., 7., 8., 9.]
    );
}

#[test]
fn unary_transform_keeps_the_shape_and_rescans_the_extrema() {
    let array = get_array_2d_float();
    let halved = array.apply_clone(|x| x / 2.);
    assert_eq!(halved.get_shape(), vec![3, 3]);
    assert_eq!(
        halved.flatten(),
        vec![0.5, 1., 1.5, 2., 2.5, 3., 3.5, 4., 4.5]
    );
    assert_eq!(halved.min(), 0.5);
    assert_eq!(halved.max(), 4.5);
    assert_eq!(array.flatten(), vec![1., 2., 3., 4., 5., 6., 7., 8., 9.]);

    let negated = array.apply_inplace(|x| -x);
    assert_eq!(negated.get_shape(), vec![3, 3]);
    assert_eq!(negated.min(), -9.);
    assert_eq!(negated.max(), -1.);
}

#[test]
fn unary_transform_visits_the_elements_in_row_major_order() {
    let array = get_array_4d_integer();
    let mut seen: Vec<i64> = vec![];
    let same = array.apply_clone(|x| {
        seen.push(x);
        x
    });
    let expected: Vec<i64> = (0..24).collect();
    assert_eq!(seen, expected);
    assert_eq!(same.flatten(), expected);
}

#[test]
fn binary_transform_adds_position_by_position() {
    let left = ArrayND::new1d(vec![1., 2., 3.]).unwrap();
    let right = ArrayND::new1d(vec![4., 5., 6.]).unwrap();
    let sum = left
        .apply_elementwise_with_other_array(right, |a, b| a + b)
        .unwrap();
    assert_eq!(sum.flatten(), vec![5., 7., 9.]);
    assert_eq!(sum.get_shape(), vec![3]);
    assert_eq!(sum.min(), 5.);
    assert_eq!(sum.max(), 9.);
}

#[test]
fn binary_transform_refuses_other_shapes() {
    let left = ArrayND::new1d(vec![1., 2., 3.]).unwrap();
    let right = ArrayND::new1d(vec![1., 2.]).unwrap();
    assert_eq!(
        left.apply_elementwise_with_other_array(right, |a, b| a + b)
            .err(),
        Some(ArrayError::ShapeMismatchError)
    );
    let rows = ArrayND::new2d(vec![vec![1., 2.], vec![3., 4.]]).unwrap();
    let line = ArrayND::new1d(vec![1., 2., 3., 4.]).unwrap();
    assert_eq!(
        rows.apply_elementwise_with_other_array(line, |a, b| a + b)
            .err(),
        Some(ArrayError::ShapeMismatchError)
    );
    let wide = ArrayND::new2d(vec![vec![1., 2., 3., 4.]]).unwrap();
    let tall = ArrayND::new2d(vec![vec![1.], vec![2.], vec![3.], vec![4.]]).unwrap();
    assert_eq!(
        wide.apply_elementwise_with_other_array(tall, |a, b| a * b)
            .err(),
        Some(ArrayError::ShapeMismatchError)
    );
}

#[test]
fn generate_calls_the_producer_once_for_each_element() {
    let mut next = 0;
    let array = generate(
        || {
            next += 1;
            next
        },
        vec![2, 3],
    )
    .unwrap();
    assert_eq!(array.flatten(), vec![1, 2, 3, 4, 5, 6]);
    assert_eq!(array.get_shape(), vec![2, 3]);
    assert_eq!(next, 6);
}

#[test]
fn generate_refuses_unsupported_shapes() {
    assert_eq!(
        generate(|| 1, vec![]).err(),
        Some(ArrayError::ShapeError)
    );
    assert_eq!(
        generate(|| 1, vec![1, 2, 3, 4, 5]).err(),
        Some(ArrayError::ShapeError)
    );
    assert_eq!(
        generate(|| 1, vec![usize::MAX, 2]).err(),
        Some(ArrayError::ShapeError)
    );
    assert_eq!(
        generate(|| 1, vec![2, 0, 2]).err(),
        Some(ArrayError::EmptyArrayError)
    );
    assert_eq!(
        generate(|| 1, vec![usize::MAX, 2, 0]).err(),
        Some(ArrayError::EmptyArrayError)
    );
}

#[test]
fn storage_knows_whether_it_is_rectangular() {
    assert!(ArrayData::TwoD(vec![vec![1, 2], vec![3, 4]]).is_rectangular());
    assert!(!ArrayData::TwoD(vec![vec![1, 2], vec![3]]).is_rectangular());
    assert!(ArrayData::OneD(vec![1, 2, 3]).is_rectangular());
    assert!(
        !ArrayData::ThreeD(vec![vec![vec![1], vec![2]], vec![vec![3], vec![4, 5]]])
            .is_rectangular()
    );
    assert!(
        !ArrayData::FourD(vec![vec![vec![vec![1]]], vec![vec![vec![2]], vec![vec![3]]]])
            .is_rectangular()
    );
    assert_eq!(
        ArrayData::ThreeD(vec![vec![vec![1, 2, 3]]]).shape(),
        vec![1, 1, 3]
    );
    let none: Vec<Vec<i32>> = vec![];
    assert_eq!(ArrayData::TwoD(none).shape(), vec![0, 0]);
}

#[test]
fn errors_describe_themselves() {
    assert_eq!(
        ArrayError::ShapeError.describe(),
        "shape does not fit the data"
    );
    assert_eq!(
        ArrayError::ShapeMismatchError.describe(),
        "operands differ in shape"
    );
    assert_eq!(
        ArrayError::EmptyArrayError.describe(),
        "array has no elements"
    );
}

#[test]
fn rows_are_written_on_lines() {
    let array = asarray(ArrayData::OneD(vec![1.0, 2.0, 3.0])).unwrap();
    assert_eq!(array.to_string(), "1 2 3 ");
    let array = ArrayND::new2d(vec![vec![1.5, 2.0], vec![-3.0, 4.25]]).unwrap();
    assert_eq!(array.to_string(), "1.5 2 \n-3 4.25 \n");
}

#[test]
fn planes_and_cubes_are_set_apart() {
    let array = ArrayND::new3d(vec![vec![vec![1, 2], vec![3, 4]], vec![vec![5, 6], vec![7, 8]]])
        .unwrap();
    assert_eq!(array.to_string(), "1 2 \n3 4 \n\n5 6 \n7 8 \n\n");
    let array = ArrayND::new4d(vec![
        vec![vec![vec![1], vec![2]]],
        vec![vec![vec![3], vec![4]]],
    ])
    .unwrap();
    assert_eq!(array.to_string(), "1 \n2 \n\n\n3 \n4 \n\n\n");
}

#[test]
fn a_copy_holds_what_the_array_holds() {
    let array = get_array_3d_float();
    let copy = array.clone();
    assert_eq!(copy.get_shape(), array.get_shape());
    assert_eq!(copy.flatten(), array.flatten());
    assert_eq!(copy.min(), 1.);
    assert_eq!(copy.max(), 27.);
    assert_eq!(copy.size(), 27);
    let data = array.data().iter();
    assert_eq!(data.flatten(), array.flatten());
    assert_eq!(data.shape(), vec![3, 3, 3]);
    assert!(data.is_rectangular());
    let jagged = ArrayData::TwoD(vec![vec![1, 2], vec![3]]);
    assert_eq!(jagged.clone().flatten(), vec![1, 2, 3]);
    assert!(!jagged.clone().is_rectangular());
}

#[test]
fn components_are_taken_off_the_end() {
    let mut data = ArrayData::OneD(vec![1, 2, 3]);
    assert_eq!(data.next(), Some(3));
    assert_eq!(data.next(), Some(2));
    assert_eq!(data.flatten(), vec![1]);
    assert_eq!(data.next(), Some(1));
    assert_eq!(data.next(), None);
    let mut data = ArrayData::TwoD(vec![vec![1, 2], vec![3, 4]]);
    assert_eq!(data.next(), Some(3));
    assert_eq!(data.flatten(), vec![1, 2]);
    assert_eq!(data.next(), Some(1));
    assert_eq!(data.next(), None);
    let mut data = ArrayData::ThreeD(vec![vec![vec![1, 2]], vec![vec![3, 4]]]);
    assert_eq!(data.next(), Some(3));
    assert_eq!(data.shape(), vec![1, 1, 2]);
    let mut data = ArrayData::FourD(vec![vec![vec![vec![7, 8]]]]);
    assert_eq!(data.next(), Some(7));
    assert_eq!(data.next(), None);
}

#[test]
fn extrema_of_values_that_do_not_compare() {
    let array = ArrayND::new1d(vec![f64::NAN, 1.]).unwrap();
    assert_eq!(array.min(), 1.);
    assert_eq!(array.max(), 1.);
    let array = ArrayND::new1d(vec![3., f64::NAN, 1.]).unwrap();
    assert_eq!(array.min(), 1.);
    assert_eq!(array.max(), 1.);
}

#[test]
fn small_sums_are_sequential_sums() {
    let array = ArrayND::new2d(vec![vec![0.1, 0.2, 0.3], vec![1e16, -1e16, 0.7]]).unwrap();
    assert_eq!(array.sum(), array.seq_sum());
    assert_eq!(array.seq_sum(), ((((0.1 + 0.2) + 0.3) + 1e16) + -1e16) + 0.7);
}

#[test]
fn jagged_input_is_refused() {
    assert_eq!(
        ArrayND::new2d(vec![vec![1, 2], vec![3]]).err(),
        Some(ArrayError::ShapeError)
    );
    assert_eq!(
        ArrayND::new3d(vec![vec![vec![1], vec![2]], vec![vec![3]]]).err(),
        Some(ArrayError::ShapeError)
    );
    assert_eq!(
        ArrayND::new4d(vec![vec![vec![vec![1, 2]]], vec![vec![vec![3]]]]).err(),
        Some(ArrayError::ShapeError)
    );
    assert_eq!(
        asarray(ArrayData::TwoD(vec![vec![1], vec![2, 3]])).err(),
        Some(ArrayError::ShapeError)
    );
    let first_row_empty: Vec<Vec<i32>> = vec![vec![], vec![1]];
    assert_eq!(
        ArrayND::new2d(first_row_empty).err(),
        Some(ArrayError::EmptyArrayError)
    );
}
