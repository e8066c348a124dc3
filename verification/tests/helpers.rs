use numrs::array::find_max;
use numrs::array::find_min;
use numrs::elementwise::map_in_place;
use numrs::elementwise::map_values;
use numrs::elementwise::produce_values;
use numrs::elementwise::zip_values;
use numrs::nested::append1;
use numrs::nested::append2;
use numrs::nested::append3;
use numrs::nested::append4;
use numrs::nested::is_rect2;
use numrs::nested::is_rect3;
use numrs::nested::is_rect4;
use numrs::nested::nest1;
use numrs::nested::nest2;
use numrs::nested::nest3;
use numrs::nested::nest4;
use numrs::order::find_max_in;
use numrs::order::find_min_in;
use numrs::reduce::fold1;
use numrs::reduce::fold2;
use numrs::reduce::fold3;
use numrs::reduce::fold4;
use numrs::reduce::plus;
use numrs::storage::copy1;
use numrs::storage::copy2;
use numrs::storage::copy3;
use numrs::storage::copy4;
use numrs::ArrayData;

#[test]
fn nesting_takes_elements_by_the_index_formula() {
    let flat: Vec<i32> = (0..30).collect();
    assert_eq!(nest1(&flat, 3, 4), vec![3, 4, 5, 6]);
    assert_eq!(nest2(&flat, 1, 2, 3), vec![vec![1, 2, 3], vec![4, 5, 6]]);
    let planes = nest3(&flat, 0, 2, 3, 4);
    for i in 0..2 {
        for j in 0..3 {
            for k in 0..4 {
                assert_eq!(planes[i][j][k], (i * (3 * 4) + j * 4 + k) as i32);
            }
        }
    }
    let cubes = nest4(&flat, 6, 2, 2, 3, 2);
    for i in 0..2 {
        for j in 0..2 {
            for k in 0..3 {
                for l in 0..2 {
                    assert_eq!(
                        cubes[i][j][k][l],
                        (6 + i * (2 * (3 * 2)) + j * (3 * 2) + k * 2 + l) as i32
                    );
                }
            }
        }
    }
    let none = nest4(&flat, 0, 3, 0, 5, 5);
    assert_eq!(none, vec![vec![], vec![], vec![]] as Vec<Vec<Vec<Vec<i32>>>>);
}

#[test]
fn appending_walks_in_row_major_order() {
    let mut out = vec![9];
    append1(&mut out, &vec![1, 2]);
    append2(&mut out, &vec![vec![3], vec![], vec![4, 5]]);
    append3(&mut out, &vec![vec![vec![6, 7]], vec![vec![8]]]);
    append4(&mut out, &vec![vec![vec![vec![10]], vec![vec![11, 12]]]]);
    assert_eq!(out, vec![9, 1, 2, 3, 4, 5, 6, 7, 8, 10, 11, 12]);
}

#[test]
fn nesting_undoes_appending() {
    let rows = vec![vec![1., 2.], vec![3., 4.], vec![5., 6.]];
    let mut flat = vec![];
    append2(&mut flat, &rows);
    assert_eq!(nest2(&flat, 0, 3, 2), rows);
}

#[test]
fn even_lengths_are_recognised() {
    assert!(is_rect2(&vec![vec![1, 2], vec![3, 4]], 2));
    assert!(!is_rect2(&vec![vec![1, 2], vec![3, 4]], 3));
    assert!(is_rect2(&(vec![] as Vec<Vec<i32>>), 7));
    assert!(is_rect3(&vec![vec![vec![1], vec![2]]], 2, 1));
    assert!(!is_rect3(&vec![vec![vec![1], vec![2, 3]]], 2, 1));
    assert!(!is_rect3(&vec![vec![vec![1], vec![2]]], 1, 1));
    assert!(is_rect4(&vec![vec![vec![vec![1, 2]]]], 1, 1, 2));
    assert!(!is_rect4(&vec![vec![vec![vec![1, 2]]]], 1, 1, 1));
}

#[test]
fn copies_are_nested_alike() {
    assert_eq!(copy1(&vec![1, 2]), vec![1, 2]);
    assert_eq!(copy2(&vec![vec![1], vec![2, 3]]), vec![vec![1], vec![2, 3]]);
    assert_eq!(copy3(&vec![vec![vec![1.5]]]), vec![vec![vec![1.5]]]);
    assert_eq!(
        copy4(&vec![vec![vec![vec![1, 2]], vec![]]]),
        vec![vec![vec![vec![1, 2]], vec![]]]
    );
}

#[test]
fn scans_replace_a_candidate_that_is_not_strictly_better() {
    assert_eq!(find_min_in(&vec![3, 1, 2, 1]), 1);
    assert_eq!(find_max_in(&vec![3, 1, 3, 2]), 3);
    assert_eq!(find_min_in(&vec![5]), 5);
    assert_eq!(find_max_in(&vec![-1.5, -0.5]), -0.5);
    assert_eq!(find_min(&ArrayData::TwoD(vec![vec![4, 2], vec![8, -3]])), -3);
    assert_eq!(find_max(&ArrayData::ThreeD(vec![vec![vec![4., 2.]], vec![vec![8.5, -3.]]])), 8.5);
    let zeros = find_min_in(&vec![0.0_f64, -0.0]);
    assert!(zeros == 0. && zeros.is_sign_negative());
    let zeros = find_max_in(&vec![0.0_f64, -0.0]);
    assert!(zeros == 0. && zeros.is_sign_negative());
}

#[test]
fn element_by_element_work_keeps_positions() {
    assert_eq!(map_values(&vec![1, 2, 3], |x| x * 10), vec![10, 20, 30]);
    let mut values = vec![1., 4., 9.];
    map_in_place(&mut values, |x: f64| x.sqrt());
    assert_eq!(values, vec![1., 2., 3.]);
    assert_eq!(
        zip_values(&vec![1, 2, 3], &vec![10, 20, 30], |a, b| b - a),
        vec![9, 18, 27]
    );
    let mut calls = 0;
    let made = produce_values(4, || {
        calls += 1;
        calls * calls
    });
    assert_eq!(made, vec![1, 4, 9, 16]);
    let none: Vec<i32> = produce_values(0, || 1);
    assert_eq!(none, vec![]);
}

#[test]
fn folds_add_from_left_to_right() {
    assert_eq!(plus(2, 3), 5);
    assert_eq!(fold1(10, &vec![1, 2, 3]), 16);
    assert_eq!(fold1(10, &(vec![] as Vec<i32>)), 10);
    assert_eq!(fold2(0., &vec![vec![0.1, 0.2], vec![0.3]]), (0.1 + 0.2) + 0.3);
    assert_eq!(fold2(0., &vec![vec![1e16, 1.], vec![-1e16]]), (1e16 + 1.) + -1e16);
    assert_eq!(fold3(1, &vec![vec![vec![1, 2]], vec![vec![3], vec![4]]]), 11);
    assert_eq!(fold4(-10, &vec![vec![vec![vec![1, 2], vec![3]]], vec![vec![vec![4]]]]), 0);
}
