use netwatch::ranking::{insert_ranked, rank};
use netwatch::rate::Rate;

fn r(bytes: u128, millis: u64) -> Rate {
    Rate { bytes, millis }
}

#[test]
fn rank_orders_by_rate_descending() {
    let pairs = vec![(1u32, r(10, 1000)), (2, r(300, 1000)), (3, r(20, 1000)), (4, r(299, 1000))];
    let ranked = rank(&pairs);
    let hosts: Vec<u32> = ranked.iter().map(|p| p.0).collect();
    assert_eq!(hosts, vec![2, 4, 3, 1]);
    assert_eq!(ranked[0].1, r(300, 1000));
}

#[test]
fn rank_compares_rates_not_byte_counts() {
    let pairs = vec![(1u32, r(100, 4000)), (2, r(60, 1000)), (3, r(90, 2000))];
    let ranked = rank(&pairs);
    let hosts: Vec<u32> = ranked.iter().map(|p| p.0).collect();
    assert_eq!(hosts, vec![2, 3, 1]);
}

#[test]
fn rank_keeps_every_pair_once() {
    let pairs = vec![(9u32, r(5, 10)), (8, r(5, 10)), (7, r(1, 10)), (6, r(50, 10))];
    let ranked = rank(&pairs);
    assert_eq!(ranked.len(), 4);
    for p in &pairs {
        assert_eq!(ranked.iter().filter(|q| *q == p).count(), 1);
    }
    for i in 1..ranked.len() {
        assert!(ranked[i].1.at_most(&ranked[i - 1].1));
    }
}

#[test]
fn rank_is_repeatable() {
    let pairs = vec![(1u32, r(3, 7)), (2, r(9, 7)), (3, r(3, 7)), (4, r(0, 7)), (5, r(12, 7))];
    let first = rank(&pairs);
    let second = rank(&pairs);
    assert_eq!(first, second);
    let rates: Vec<u128> = first.iter().map(|p| p.1.bytes).collect();
    assert_eq!(rates, vec![12, 9, 3, 3, 0]);
}

#[test]
fn rank_of_nothing_is_empty() {
    let pairs: Vec<(u32, Rate)> = Vec::new();
    assert!(rank(&pairs).is_empty());
}

#[test]
fn insert_ranked_goes_behind_equal_rates() {
    let mut ranked = vec![(1u32, r(9, 1)), (2, r(5, 1)), (3, r(1, 1))];
    let at = insert_ranked(&mut ranked, (4, r(5, 1)));
    assert_eq!(at, 2);
    let hosts: Vec<u32> = ranked.iter().map(|p| p.0).collect();
    assert_eq!(hosts, vec![1, 2, 4, 3]);
    let at = insert_ranked(&mut ranked, (5, r(10, 1)));
    assert_eq!(at, 0);
    let at = insert_ranked(&mut ranked, (6, r(0, 1)));
    assert_eq!(at, 5);
}

#[test]
fn rates_by_rank_do_not_depend_on_input_order() {
    let pairs = vec![
        (1u32, r(3, 7)),
        (2, r(9, 7)),
        (3, r(6, 14)),
        (4, r(0, 7)),
        (5, r(12, 7)),
        (6, r(18, 14)),
    ];
    let mut reversed = pairs.clone();
    reversed.reverse();
    let mut rotated = pairs.clone();
    rotated.rotate_left(2);
    let first = rank(&pairs);
    for other in [rank(&reversed), rank(&rotated)] {
        assert_eq!(other.len(), first.len());
        for i in 0..first.len() {
            assert!(first[i].1.at_most(&other[i].1));
            assert!(other[i].1.at_most(&first[i].1));
        }
    }
    let per_second: Vec<u128> = first.iter().map(|p| p.1.bytes_per_second()).collect();
    assert_eq!(per_second, vec![1714, 1285, 1285, 428, 428, 0]);
}
