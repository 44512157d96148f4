use number_double_float::order::{compare_parts, Sign};
use number_double_float::{power_index, LENGTH};
use std::cmp::Ordering::{Equal, Greater, Less};

#[test]
fn nan_is_unordered() {
    assert_eq!(compare_parts(Sign::NotANumber, Sign::NotANumber, Equal, Equal), None);
    assert_eq!(compare_parts(Sign::NotANumber, Sign::Positive, Less, Less), None);
    assert_eq!(compare_parts(Sign::Zero, Sign::NotANumber, Equal, Equal), None);
}

#[test]
fn signs_decide_first() {
    assert_eq!(compare_parts(Sign::Negative, Sign::Positive, Greater, Greater), Some(Less));
    assert_eq!(compare_parts(Sign::Zero, Sign::Negative, Less, Less), Some(Greater));
    assert_eq!(compare_parts(Sign::Positive, Sign::Zero, Less, Less), Some(Greater));
}

#[test]
fn positives_order_by_exponent_then_mantissa() {
    // 3e100 > 1e99
    assert_eq!(compare_parts(Sign::Positive, Sign::Positive, Greater, Greater), Some(Greater));
    // 1e100 > 3e99
    assert_eq!(compare_parts(Sign::Positive, Sign::Positive, Greater, Less), Some(Greater));
    // 1e5 < 3e5
    assert_eq!(compare_parts(Sign::Positive, Sign::Positive, Equal, Less), Some(Less));
    assert_eq!(compare_parts(Sign::Positive, Sign::Positive, Equal, Equal), Some(Equal));
}

#[test]
fn negatives_order_by_magnitude_reversed() {
    // -1e100 < -3e99
    assert_eq!(compare_parts(Sign::Negative, Sign::Negative, Greater, Greater), Some(Less));
    // -3e99 > -1e100
    assert_eq!(compare_parts(Sign::Negative, Sign::Negative, Less, Less), Some(Greater));
    // -3e0 < -1e0
    assert_eq!(compare_parts(Sign::Negative, Sign::Negative, Equal, Less), Some(Less));
}

#[test]
fn zeros_are_equal() {
    assert_eq!(compare_parts(Sign::Zero, Sign::Zero, Equal, Equal), Some(Equal));
}

#[test]
fn power_index_bounds() {
    assert_eq!(power_index(-324), Some(0));
    assert_eq!(power_index(0), Some(324));
    assert_eq!(power_index(308), Some(LENGTH - 1));
    assert_eq!(power_index(309), None);
    assert_eq!(power_index(-325), None);
}
