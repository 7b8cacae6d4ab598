use netwatch::rate::{mul_wide, Load, Rate};

#[test]
fn rates_compare_as_fractions() {
    let slow = Rate { bytes: 100, millis: 1000 };
    let fast = Rate { bytes: 100, millis: 500 };
    let same = Rate { bytes: 50, millis: 500 };
    assert!(slow.at_most(&fast));
    assert!(!fast.at_most(&slow));
    assert!(slow.at_most(&same));
    assert!(same.at_most(&slow));
}

#[test]
fn zero_span_counts_as_rate_zero() {
    let none = Rate { bytes: 77, millis: 0 };
    let zero = Rate::zero();
    let some = Rate { bytes: 1, millis: 1000 };
    let idle = Rate { bytes: 0, millis: 1000 };
    assert_eq!(zero, Rate { bytes: 0, millis: 0 });
    assert!(none.at_most(&some));
    assert!(!some.at_most(&none));
    assert!(idle.at_most(&none));
    assert!(none.at_most(&idle));
    assert!(zero.at_most(&none));
    assert_eq!(none.bytes_per_second(), 0);
}

#[test]
fn comparison_is_exact_beyond_128_bits() {
    let a = Rate { bytes: u128::MAX, millis: u64::MAX };
    let b = Rate { bytes: u128::MAX - 1, millis: u64::MAX };
    let c = Rate { bytes: u128::MAX, millis: u64::MAX - 1 };
    assert!(b.at_most(&a));
    assert!(!a.at_most(&b));
    assert!(a.at_most(&c));
    assert!(!c.at_most(&a));
    assert!(a.at_most(&a));
}

#[test]
fn wide_product_splits_into_high_and_low() {
    assert_eq!(mul_wide(0, 5), (0, 0));
    assert_eq!(mul_wide(7, 6), (0, 42));
    assert_eq!(mul_wide(1u128 << 64, 3), (3, 0));
    assert_eq!(mul_wide(u64::MAX as u128, 2), (1, u64::MAX - 1));
    // (2^128 - 1) * (2^64 - 1) = 2^192 - 2^128 - 2^64 + 1
    assert_eq!(mul_wide(u128::MAX, u64::MAX), (u128::MAX - (1u128 << 64), 1));
}

#[test]
fn bytes_per_second_rounds_down_and_saturates() {
    assert_eq!(Rate { bytes: 1, millis: 3 }.bytes_per_second(), 333);
    assert_eq!(Rate { bytes: 300, millis: 4000 }.bytes_per_second(), 75);
    assert_eq!(Rate { bytes: 200, millis: 4000 }.bytes_per_second(), 50);
    assert_eq!(Rate { bytes: u128::MAX, millis: 1 }.bytes_per_second(), u128::MAX);
    assert_eq!(Rate { bytes: u128::MAX, millis: 1000 }.bytes_per_second(), u128::MAX);
    assert_eq!(Rate { bytes: u128::MAX, millis: 2000 }.bytes_per_second(), u128::MAX / 2);
}

#[test]
fn load_levels_split_at_ten_thousand_and_one_million() {
    assert_eq!(Rate { bytes: 1_000_000, millis: 1000 }.load_level(), Load::Medium);
    assert_eq!(Rate { bytes: 1_000_001, millis: 1000 }.load_level(), Load::High);
    assert_eq!(Rate { bytes: 500_001, millis: 500 }.load_level(), Load::High);
    assert_eq!(Rate { bytes: 10_000, millis: 1000 }.load_level(), Load::Low);
    assert_eq!(Rate { bytes: 10_001, millis: 1000 }.load_level(), Load::Medium);
    assert_eq!(Rate { bytes: 0, millis: 1000 }.load_level(), Load::Low);
    assert_eq!(Rate { bytes: u128::MAX, millis: 0 }.load_level(), Load::Low);
    assert_eq!(Rate { bytes: u128::MAX, millis: u64::MAX }.load_level(), Load::High);
}
