use num::bigint::BigInt;

use geometric_plumber::format::format_num;
use geometric_plumber::format::format_score;
use geometric_plumber::state::initial_state;
use geometric_plumber::time::current_time;

#[test]
fn small_numbers_show_in_full() {
    assert_eq!(format_num(&BigInt::from(0u64), false), "0");
    assert_eq!(format_num(&BigInt::from(999u64), false), "999");
}

#[test]
fn thousands_abbreviate_with_one_decimal() {
    // The smallest threshold applies as soon as a fourth digit appears.
    assert_eq!(format_num(&BigInt::from(1000u64), false), "1.0 Thousand");
    assert_eq!(format_num(&BigInt::from(9999u64), false), "9.9 Thousand");
    assert_eq!(format_num(&BigInt::from(12_345u64), false), "12.3 Thousand");
    assert_eq!(format_num(&BigInt::from(12_345u64), true), "12.3 K");
    assert_eq!(format_num(&BigInt::from(98_765_432u64), true), "98.7 M");
    assert_eq!(format_num(&BigInt::from(1_234_567_890u64), false), "1.2 Billion");
    assert_eq!(format_num(&BigInt::from(12_345_678_900u64), false), "12.3 Billion");
}

#[test]
fn huge_numbers_reach_the_long_names() {
    let q = BigInt::from(500_000_000_000_000_000u64);
    assert_eq!(format_num(&q, false), "500.0 Quadrillion");
    assert_eq!(format_num(&q, true), "500.0 q");
    let quint = BigInt::from(1_000_000_000_000_000_000u64);
    assert_eq!(format_num(&quint, false), "1.0 Quintillion");
    let big = BigInt::from(10u64).pow(67);
    assert_eq!(format_num(&big, false), "10.0 Unvigintillion");
    assert_eq!(format_num(&big, true), "10.0 c");
}

#[test]
fn score_line_carries_its_prefix() {
    let state = initial_state();
    assert_eq!(format_score(&state), "Score: 0");
}

#[test]
fn clock_is_monotonic_enough_to_drive_ticks() {
    let a = current_time();
    let b = current_time();
    assert!(a > 1_600_000_000_000);
    assert!(b >= a);
}
