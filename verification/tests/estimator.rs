use netwatch::config::{MAX_SAMPLES, TICK_RATE_MS};
use netwatch::estimator::IpHistory;
use netwatch::rate::Rate;

fn held(h: &IpHistory) -> Vec<u64> {
    h.samples.iter().copied().collect()
}

#[test]
fn new_estimator_is_empty_with_default_window() {
    let h = IpHistory::new();
    assert_eq!(h.samples.len(), 0);
    assert_eq!(h.total_sum, 0);
    assert_eq!(h.capacity, MAX_SAMPLES);
    assert_eq!(h.capacity, 120);
    assert_eq!(h.tick_ms, TICK_RATE_MS);
    assert_eq!(h.tick_ms, 500);
}

#[test]
fn with_window_refuses_a_span_beyond_64_bits() {
    assert!(IpHistory::with_window(usize::MAX, 2).is_none());
    assert!(IpHistory::with_window(4, u64::MAX).is_none());
    assert!(IpHistory::with_window(4, 1000).is_some());
    assert!(IpHistory::with_window(0, u64::MAX).is_some());
}

#[test]
fn running_sum_matches_samples_after_every_update() {
    let mut h = IpHistory::with_window(3, 1000).unwrap();
    let deltas: [u64; 9] = [5, 0, 7, 11, 0, 0, 0, 2, u64::MAX];
    for d in deltas {
        h.update(d);
        let sum: u128 = h.samples.iter().map(|x| *x as u128).sum();
        assert_eq!(h.total_sum, sum);
        assert!(h.samples.len() <= 3);
    }
    assert_eq!(held(&h), vec![0, 2, u64::MAX]);
}

#[test]
fn running_sum_holds_more_than_64_bits() {
    let mut h = IpHistory::with_window(2, 1).unwrap();
    h.update(u64::MAX);
    let rate = h.update(u64::MAX);
    assert_eq!(h.total_sum, 2 * (u64::MAX as u128));
    assert_eq!(rate, Rate { bytes: 2 * (u64::MAX as u128), millis: 2 });
}

#[test]
fn eviction_is_first_in_first_out() {
    let mut h = IpHistory::with_window(2, 500).unwrap();
    h.update(1);
    h.update(2);
    assert_eq!(held(&h), vec![1, 2]);
    h.update(3);
    assert_eq!(held(&h), vec![2, 3]);
    assert_eq!(h.total_sum, 5);
}

#[test]
fn early_average_is_over_the_samples_held() {
    let mut h = IpHistory::with_window(4, 1000).unwrap();
    let r = h.update(100);
    assert_eq!(r, Rate { bytes: 100, millis: 1000 });
    assert_eq!(r.bytes_per_second(), 100);
    let r = h.update(50);
    assert_eq!(r, Rate { bytes: 150, millis: 2000 });
    assert_eq!(r.bytes_per_second(), 75);
}

#[test]
fn default_tick_doubles_the_per_tick_delta() {
    let mut h = IpHistory::new();
    let r = h.update(300);
    assert_eq!(r, Rate { bytes: 300, millis: 500 });
    assert_eq!(r.bytes_per_second(), 600);
}

#[test]
fn constant_delta_converges_to_delta_per_tick() {
    let mut h = IpHistory::with_window(4, 250).unwrap();
    h.update(9);
    h.update(1000);
    let mut last = Rate { bytes: 0, millis: 0 };
    for _ in 0..4 {
        last = h.update(7);
    }
    assert_eq!(last, Rate { bytes: 28, millis: 1000 });
    assert_eq!(last.bytes_per_second(), 28);
    for _ in 0..10 {
        last = h.update(7);
        assert_eq!(last, Rate { bytes: 28, millis: 1000 });
    }
}

#[test]
fn zero_capacity_window_stays_empty_with_rate_zero() {
    let mut h = IpHistory::with_window(0, 1000).unwrap();
    let r = h.update(42);
    assert_eq!(h.samples.len(), 0);
    assert_eq!(h.total_sum, 0);
    assert_eq!(r, Rate { bytes: 0, millis: 0 });
    assert_eq!(r.bytes_per_second(), 0);
}

#[test]
fn window_of_silence_empties_the_sum() {
    let mut h = IpHistory::with_window(3, 1000).unwrap();
    h.update(10);
    h.update(0);
    assert!(h.total_sum > 0);
    h.update(0);
    assert!(h.total_sum > 0);
    h.update(0);
    assert_eq!(h.total_sum, 0);
}
