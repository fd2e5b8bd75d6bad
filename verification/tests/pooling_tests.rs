use embed_anything::pooling::{
    last_unmasked, mean_divisor, shapes_agree, unmasked_count, Pooling,
};

#[test]
fn mean_divides_by_the_unmasked_tokens_not_the_length() {
    assert_eq!(unmasked_count(&[1, 1, 1, 0, 0]), 3);
    assert_eq!(mean_divisor(&[1, 1, 1, 0, 0]), 3);
    assert_eq!(mean_divisor(&[1]), 1);
    assert_eq!(mean_divisor(&[0, 1, 0, 1]), 2);
}

#[test]
fn mean_over_an_all_masked_row_does_not_divide_by_zero() {
    assert_eq!(unmasked_count(&[0, 0, 0]), 0);
    assert_eq!(mean_divisor(&[0, 0, 0]), 1);
    assert_eq!(mean_divisor(&[]), 1);
}

#[test]
fn any_value_but_zero_unmasks() {
    assert_eq!(unmasked_count(&[2, -1, 0, i64::MIN, i64::MAX]), 4);
}

#[test]
fn last_token_is_the_last_unmasked() {
    assert_eq!(last_unmasked(&[1, 1, 1, 0, 0]), Some(2));
    assert_eq!(last_unmasked(&[1, 0, 1]), Some(2));
    assert_eq!(last_unmasked(&[0, 0]), None);
    assert_eq!(last_unmasked(&[]), None);
    assert_eq!(Pooling::LastToken.selected_token(&[1, 1, 0]), Some(1));
    assert_eq!(Pooling::LastToken.selected_token(&[0, 0, 0]), None);
}

#[test]
fn cls_is_the_first_token() {
    assert_eq!(Pooling::Cls.selected_token(&[1, 1, 0]), Some(0));
    assert_eq!(Pooling::Cls.selected_token(&[0, 0, 0]), Some(0));
    assert_eq!(Pooling::Cls.selected_token(&[]), None);
}

#[test]
fn reductions_select_no_single_token() {
    assert_eq!(Pooling::Mean.selected_token(&[1, 1, 0]), None);
    assert_eq!(Pooling::SparseMax.selected_token(&[1, 1, 0]), None);
}

#[test]
fn mask_must_have_the_shape_of_the_output() {
    let mask = vec![vec![1i64, 1, 0], vec![1, 0, 0]];
    assert!(shapes_agree(2, 3, &mask));
    assert!(!shapes_agree(3, 3, &mask));
    assert!(!shapes_agree(2, 2, &mask));
    assert!(!shapes_agree(2, 3, &vec![vec![1i64, 1, 0], vec![1, 0]]));
    assert!(shapes_agree(0, 5, &vec![]));
}
