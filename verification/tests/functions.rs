use ann_rs::functions::{
    accepts_confusion_matrix, argmax, into_onehot, sign_magnitude_key, summarize_confusion,
};

#[test]
fn onehot_marks_the_chosen_class() {
    assert_eq!(into_onehot(2, 5, 0.0, 1.0), vec![0.0, 0.0, 1.0, 0.0, 0.0]);
    assert_eq!(into_onehot(0, 1, 0u8, 1u8), vec![1u8]);
    assert_eq!(into_onehot(0, 3, 'n', 'y'), vec!['y', 'n', 'n']);
    assert_eq!(into_onehot(9, 10, false, true)[9], true);
}

#[test]
fn argmax_finds_the_largest_key() {
    assert_eq!(argmax(&[1, 5, 3]), 1);
    assert_eq!(argmax(&[7]), 0);
    assert_eq!(argmax(&[-4, -9, -1, -2]), 2);
    assert_eq!(argmax(&[i64::MIN, i64::MAX, 0]), 1);
}

#[test]
fn argmax_takes_the_last_of_equal_keys() {
    assert_eq!(argmax(&[3, 3, 3]), 2);
    assert_eq!(argmax(&[1, 9, 2, 9, 0]), 3);
    assert_eq!(argmax(&[0, 0]), 1);
}

#[test]
fn confusion_matrix_has_to_be_square_and_not_empty() {
    assert!(accepts_confusion_matrix(&vec![vec![1]]));
    assert!(accepts_confusion_matrix(&vec![vec![1, 2], vec![3, 4]]));
    assert!(!accepts_confusion_matrix(&vec![]));
    assert!(!accepts_confusion_matrix(&vec![vec![1, 2]]));
    assert!(!accepts_confusion_matrix(&vec![vec![1, 2], vec![3]]));
    assert!(!accepts_confusion_matrix(&vec![vec![1], vec![2]]));
}

#[test]
fn confusion_summary_adds_columns_diagonal_and_all() {
    let matrix = vec![vec![5, 1, 0], vec![2, 7, 3], vec![0, 4, 9]];
    let summary = summarize_confusion(&matrix).unwrap();
    assert_eq!(summary.column_totals, vec![7, 12, 12]);
    assert_eq!(summary.correct, 21);
    assert_eq!(summary.instances, 31);
}

#[test]
fn confusion_summary_of_a_single_class() {
    let summary = summarize_confusion(&vec![vec![0]]).unwrap();
    assert_eq!(summary.column_totals, vec![0]);
    assert_eq!(summary.correct, 0);
    assert_eq!(summary.instances, 0);
}

#[test]
fn confusion_summary_stops_where_the_count_overflows() {
    let full = vec![vec![u32::MAX, 0], vec![0, 0]];
    let summary = summarize_confusion(&full).unwrap();
    assert_eq!(summary.instances, u32::MAX);
    assert_eq!(summary.correct, u32::MAX);
    assert_eq!(summary.column_totals, vec![u32::MAX, 0]);

    assert!(summarize_confusion(&vec![vec![u32::MAX, 1], vec![0, 0]]).is_none());
    assert!(summarize_confusion(&vec![vec![u32::MAX, 0], vec![0, 1]]).is_none());
    assert!(summarize_confusion(&vec![vec![1 << 31, 0], vec![1 << 31, 0]]).is_none());
}

#[test]
fn keys_read_sign_and_magnitude() {
    assert_eq!(sign_magnitude_key(0), 0);
    assert_eq!(sign_magnitude_key(1), 1);
    assert_eq!(sign_magnitude_key(0x7FFF_FFFF_FFFF_FFFF), i64::MAX);
    assert_eq!(sign_magnitude_key(0x8000_0000_0000_0000), 0);
    assert_eq!(sign_magnitude_key(0x8000_0000_0000_0001), -1);
    assert_eq!(sign_magnitude_key(u64::MAX), -i64::MAX);
}

#[test]
fn keys_order_doubles_the_way_they_compare() {
    let ascending = [
        f64::NEG_INFINITY,
        -1000.5,
        -1.0,
        -f64::MIN_POSITIVE,
        0.0,
        f64::MIN_POSITIVE,
        0.5,
        1.0,
        3.5,
        1e300,
        f64::INFINITY,
    ];
    for pair in ascending.windows(2) {
        assert!(sign_magnitude_key(pair[0].to_bits()) < sign_magnitude_key(pair[1].to_bits()));
    }
    assert_eq!(
        sign_magnitude_key((-0.0f64).to_bits()),
        sign_magnitude_key(0.0f64.to_bits())
    );
}

#[test]
fn argmax_over_the_keys_of_doubles() {
    let logits = [0.1, -2.0, 7.25, 7.25, -0.0];
    let keys: Vec<i64> = logits
        .iter()
        .map(|x: &f64| sign_magnitude_key(x.to_bits()))
        .collect();
    assert_eq!(argmax(&keys), 3);
}
