use uptimed::ratio::{percent, rounded_ratio};
use uptimed::sources::{nearest_second, scaled_load};

#[test]
fn available_memory_of_a_fifth_is_twenty_percent() {
    assert_eq!(percent(200, 1000), Some(20));
}

#[test]
fn free_blocks_of_a_quarter_is_twenty_five_percent() {
    assert_eq!(percent(50, 200), Some(25));
}

#[test]
fn percent_rounds_to_nearest() {
    assert_eq!(percent(1, 3), Some(33));
    assert_eq!(percent(2, 3), Some(67));
    assert_eq!(percent(1, 1000), Some(0));
    assert_eq!(percent(4, 1000), Some(0));
    assert_eq!(percent(6, 1000), Some(1));
}

#[test]
fn percent_rounds_halves_up() {
    assert_eq!(percent(1, 200), Some(1));
    assert_eq!(percent(3, 200), Some(2));
    assert_eq!(percent(5, 1000), Some(1));
    assert_eq!(percent(199, 200), Some(100));
}

#[test]
fn percent_of_nothing_and_of_all() {
    assert_eq!(percent(0, 7), Some(0));
    assert_eq!(percent(7, 7), Some(100));
    assert_eq!(percent(u64::MAX, u64::MAX), Some(100));
}

#[test]
fn percent_of_an_empty_whole_is_none() {
    assert_eq!(percent(0, 0), None);
    assert_eq!(percent(5, 0), None);
}

#[test]
fn percent_may_exceed_one_hundred() {
    assert_eq!(percent(3, 2), Some(150));
    assert_eq!(percent(u64::MAX / 100, 1), Some(u64::MAX / 100 * 100));
}

#[test]
fn percent_that_does_not_fit_is_none() {
    assert_eq!(percent(u64::MAX, 1), None);
    assert_eq!(percent(u64::MAX / 100 + 1, 1), None);
}

#[test]
fn rounded_ratio_examples() {
    assert_eq!(rounded_ratio(0, 1), Some(0));
    assert_eq!(rounded_ratio(7, 2), Some(4));
    assert_eq!(rounded_ratio(10, 4), Some(3));
    assert_eq!(rounded_ratio(9, 4), Some(2));
    assert_eq!(rounded_ratio(u128::MAX, 1), Some(u128::MAX));
    assert_eq!(rounded_ratio(u128::MAX, u128::MAX), Some(1));
    assert_eq!(rounded_ratio(u128::MAX - 1, u128::MAX), Some(1));
    assert_eq!(rounded_ratio(u128::MAX / 2, u128::MAX), Some(0));
    assert_eq!(rounded_ratio(u128::MAX / 2 + 1, u128::MAX), Some(1));
}

#[test]
fn rounded_ratio_by_zero_is_none() {
    assert_eq!(rounded_ratio(0, 0), None);
    assert_eq!(rounded_ratio(1, 0), None);
}

#[test]
fn rounded_ratio_is_within_half_a_unit() {
    for den in 1u128..40 {
        for num in 0u128..400 {
            let q = rounded_ratio(num, den).unwrap();
            assert!(2 * q * den <= 2 * num + den);
            assert!(2 * q * den + den > 2 * num);
        }
    }
}

#[test]
fn load_of_one_on_four_cores_is_twenty_five() {
    assert_eq!(scaled_load(1000, 4), Some(25));
}

#[test]
fn scaled_load_examples() {
    assert_eq!(scaled_load(0, 8), Some(0));
    assert_eq!(scaled_load(1230, 1), Some(123));
    assert_eq!(scaled_load(2500, 2), Some(125));
    assert_eq!(scaled_load(50, 3), Some(2));
    assert_eq!(scaled_load(10, 3), Some(0));
    assert_eq!(scaled_load(10, 2), Some(1));
    assert_eq!(scaled_load(125, 1), Some(13));
    assert_eq!(scaled_load(124, 1), Some(12));
    assert_eq!(scaled_load(4, 1), Some(0));
    assert_eq!(scaled_load(5, 1), Some(1));
    assert_eq!(scaled_load(4090, 1), Some(409));
}

#[test]
fn scaled_load_without_a_core_is_none() {
    assert_eq!(scaled_load(1000, 0), None);
    assert_eq!(scaled_load(0, 0), None);
}

#[test]
fn scaled_load_that_does_not_fit_is_none() {
    assert_eq!(scaled_load(1000 * (u64::MAX as u128), 1), None);
    assert_eq!(scaled_load(1000 * (u64::MAX as u128), 100), Some(u64::MAX));
    assert_eq!(scaled_load(u128::MAX, u64::MAX), Some(1844674407370955162));
    assert_eq!(scaled_load(u128::MAX, 1), None);
    assert_eq!(scaled_load(10 * (u64::MAX as u128) + 4, 1), Some(u64::MAX));
    assert_eq!(scaled_load(10 * (u64::MAX as u128) + 5, 1), None);
}

#[test]
fn nearest_second_rounds_thousandths() {
    assert_eq!(nearest_second(12345670), Some(12346));
    assert_eq!(nearest_second(12345490), Some(12345));
    assert_eq!(nearest_second(12345499), Some(12345));
    assert_eq!(nearest_second(12345500), Some(12346));
    assert_eq!(nearest_second(0), Some(0));
    assert_eq!(nearest_second(499), Some(0));
    assert_eq!(nearest_second(500), Some(1));
    assert_eq!(nearest_second(1500), Some(2));
    assert_eq!(nearest_second(2500), Some(3));
}

#[test]
fn nearest_second_that_does_not_fit_is_none() {
    assert_eq!(nearest_second(1000 * (u64::MAX as u128) + 499), Some(u64::MAX));
    assert_eq!(nearest_second(1000 * (u64::MAX as u128) + 500), None);
    assert_eq!(nearest_second(u128::MAX), None);
}
