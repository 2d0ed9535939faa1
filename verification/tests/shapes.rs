use ann_rs::shapes::{cut_at, fill, fill_like, has_shape, shapes_match};

#[test]
fn has_shape_counts_rows_and_columns() {
    let m = vec![vec![1.0, 2.0, 3.0], vec![4.0, 5.0, 6.0]];
    assert!(has_shape(&m, 2, 3));
    assert!(!has_shape(&m, 3, 2));
    assert!(!has_shape(&m, 2, 2));
    assert!(!has_shape(&m, 1, 3));
}

#[test]
fn has_shape_rejects_ragged_rows() {
    let m = vec![vec![1, 2], vec![3], vec![4, 5]];
    assert!(!has_shape(&m, 3, 2));
    assert!(!has_shape(&m, 3, 1));
}

#[test]
fn has_shape_of_nothing() {
    let none: Vec<Vec<u8>> = vec![];
    assert!(has_shape(&none, 0, 0));
    assert!(has_shape(&none, 0, 7));
    assert!(!has_shape(&none, 1, 0));
    let hollow: Vec<Vec<u8>> = vec![vec![], vec![]];
    assert!(has_shape(&hollow, 2, 0));
    assert!(!has_shape(&hollow, 2, 1));
}

#[test]
fn fill_repeats_the_value() {
    assert_eq!(fill(3, 0.5), vec![0.5, 0.5, 0.5]);
    assert_eq!(fill(0, 1u8), Vec::<u8>::new());
}

#[test]
fn fill_like_keeps_every_row_length() {
    let m = vec![vec![1.0, 2.0], vec![], vec![3.0]];
    assert_eq!(fill_like(&m, 0.0), vec![vec![0.0, 0.0], vec![], vec![0.0]]);
    let none: Vec<Vec<f64>> = vec![];
    assert_eq!(fill_like(&none, 0.0), Vec::<Vec<f64>>::new());
}

#[test]
fn shapes_match_row_by_row() {
    let a = vec![vec![1.0, 2.0], vec![], vec![3.0]];
    let b = vec![vec![7, 8], vec![], vec![9]];
    assert!(shapes_match(&a, &b));
    assert!(!shapes_match(&a, &vec![vec![7, 8], vec![], vec![9, 9]]));
    assert!(!shapes_match(&a, &vec![vec![7, 8], vec![]]));
    assert!(shapes_match(&Vec::<Vec<u8>>::new(), &Vec::<Vec<f64>>::new()));
}

#[test]
fn cut_at_puts_the_high_value_above_the_cut_only() {
    let keys = vec![vec![-5, 0, 1, 2], vec![], vec![1, i64::MAX, i64::MIN]];
    assert_eq!(
        cut_at(&keys, 1, 'l', 'h'),
        vec![vec!['l', 'l', 'l', 'h'], vec![], vec!['l', 'h', 'l']]
    );
}
