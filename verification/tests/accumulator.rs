use netwatch::accumulator::{Observed, SharedStats};
use netwatch::hosts::{get_local_ip, host_from_octets, host_octets, is_lan_ip, Interface};

#[test]
fn classifier_accepts_the_two_private_ranges() {
    assert!(is_lan_ip(host_from_octets(192, 168, 1, 1)));
    assert!(is_lan_ip(host_from_octets(192, 168, 255, 255)));
    assert!(is_lan_ip(host_from_octets(10, 0, 0, 1)));
    assert!(is_lan_ip(host_from_octets(10, 255, 255, 255)));
    assert!(!is_lan_ip(host_from_octets(192, 169, 0, 1)));
    assert!(!is_lan_ip(host_from_octets(193, 168, 0, 1)));
    assert!(!is_lan_ip(host_from_octets(172, 16, 0, 1)));
    assert!(!is_lan_ip(host_from_octets(8, 8, 8, 8)));
    assert!(!is_lan_ip(host_from_octets(11, 0, 0, 1)));
    assert!(!is_lan_ip(0));
}

#[test]
fn host_numbers_are_big_endian() {
    assert_eq!(host_from_octets(192, 168, 1, 2), 0xC0A8_0102);
    assert_eq!(host_octets(0xC0A8_0102), [192, 168, 1, 2]);
    assert_eq!(host_octets(u32::MAX), [255, 255, 255, 255]);
    assert_eq!(host_from_octets(0, 0, 0, 0), 0);
}

#[test]
fn record_splits_inbound_and_outbound() {
    let local = host_from_octets(192, 168, 1, 10);
    let remote = host_from_octets(8, 8, 8, 8);
    let mut s = SharedStats::new();
    s.record(local, remote, 100, local);
    s.record(remote, local, 40, local);
    assert_eq!(s.tx_delta, 100);
    assert_eq!(s.rx_delta, 40);
    assert_eq!(s.host_delta(local), 140);
    assert_eq!(s.host_delta(remote), 0);
    assert!(!s.traffic_delta.contains_key(&remote));
}

#[test]
fn record_credits_source_and_destination_independently() {
    let local = host_from_octets(192, 168, 1, 10);
    let a = host_from_octets(10, 0, 0, 1);
    let b = host_from_octets(10, 0, 0, 2);
    let far = host_from_octets(1, 1, 1, 1);
    let other = host_from_octets(9, 9, 9, 9);
    let mut s = SharedStats::new();
    s.record(a, b, 60, local);
    assert_eq!(s.host_delta(a), 60);
    assert_eq!(s.host_delta(b), 60);
    s.record(far, other, 5, local);
    assert_eq!(s.traffic_delta.len(), 2);
    assert_eq!(s.rx_delta, 65);
    s.record(a, a, 7, local);
    assert_eq!(s.host_delta(a), 74);
}

#[test]
fn unit_records_are_counted_exactly_once() {
    let local = host_from_octets(192, 168, 1, 10);
    let remote = host_from_octets(8, 8, 8, 8);
    let mut s = SharedStats::new();
    let n: u64 = 10_000;
    for _ in 0..n {
        assert!(s.can_record(remote, local, 1, local));
        s.record(remote, local, 1, local);
    }
    let drained = s.drain_and_reset();
    assert_eq!(drained.host_delta(local), n);
    assert_eq!(drained.rx_delta, n);
    assert_eq!(drained.tx_delta, 0);
    let again = s.drain_and_reset();
    assert_eq!(again.host_delta(local), 0);
    assert_eq!(again.rx_delta, 0);
    assert!(again.traffic_delta.is_empty());
}

#[test]
fn drain_leaves_the_accumulator_empty() {
    let local = host_from_octets(192, 168, 1, 10);
    let mut s = SharedStats::new();
    s.record(local, host_from_octets(10, 1, 1, 1), 9, local);
    let drained = s.drain_and_reset();
    assert_eq!(drained.traffic_delta.len(), 2);
    assert_eq!(drained.tx_delta, 9);
    assert!(s.traffic_delta.is_empty());
    assert_eq!(s.rx_delta, 0);
    assert_eq!(s.tx_delta, 0);
    s.record(host_from_octets(10, 1, 1, 1), local, 3, local);
    assert_eq!(s.host_delta(local), 3);
}

#[test]
fn can_record_sees_every_counter_that_would_overflow() {
    let local = host_from_octets(192, 168, 1, 10);
    let lan = host_from_octets(10, 0, 0, 1);
    let far = host_from_octets(8, 8, 8, 8);
    let mut s = SharedStats::new();
    s.credit(lan, u64::MAX - 10);
    assert!(s.can_record(far, lan, 10, local));
    assert!(!s.can_record(far, lan, 11, local));
    assert!(!s.can_record(lan, far, 11, local));
    assert!(s.can_record(lan, lan, 5, local));
    assert!(!s.can_record(lan, lan, 6, local));
    assert!(s.can_record(far, far, u64::MAX, local));
    s.record(far, far, u64::MAX, local);
    assert!(!s.can_record(far, far, 1, local));
    assert!(s.can_record(local, far, 1, local));
}

#[test]
fn credit_ignores_hosts_outside_the_local_subnets() {
    let mut s = SharedStats::new();
    s.credit(host_from_octets(8, 8, 4, 4), 500);
    assert!(s.traffic_delta.is_empty());
    s.credit(host_from_octets(192, 168, 0, 7), 500);
    s.credit(host_from_octets(192, 168, 0, 7), 1);
    assert_eq!(s.host_delta(host_from_octets(192, 168, 0, 7)), 501);
}

#[test]
fn local_ip_is_the_first_ipv4_of_the_named_interface() {
    let interfaces = vec![
        Interface { name: String::from("lo"), ips: vec![Some(0x7f00_0001)] },
        Interface { name: String::from("eth0"), ips: vec![None, Some(0xC0A8_0105), Some(0x0A00_0001)] },
        Interface { name: String::from("eth0"), ips: vec![Some(0x0A00_0002)] },
        Interface { name: String::from("wlan0"), ips: vec![None] },
    ];
    assert_eq!(get_local_ip(&interfaces, &String::from("eth0")), Some(0xC0A8_0105));
    assert_eq!(get_local_ip(&interfaces, &String::from("lo")), Some(0x7f00_0001));
    assert_eq!(get_local_ip(&interfaces, &String::from("wlan0")), None);
    assert_eq!(get_local_ip(&interfaces, &String::from("eth1")), None);
    assert_eq!(get_local_ip(&Vec::new(), &String::from("eth0")), None);
}

#[test]
fn observe_records_ipv4_frames_only() {
    let local = host_from_octets(192, 168, 1, 10);
    let mut frame: Vec<u8> = vec![0; 12];
    frame.extend_from_slice(&[0x08, 0x00]);
    frame.extend_from_slice(&[0x45, 0, 0, 20, 0, 0, 0, 0, 64, 17, 0, 0]);
    frame.extend_from_slice(&[192, 168, 1, 10]);
    frame.extend_from_slice(&[10, 0, 0, 9]);
    let mut s = SharedStats::new();
    assert_eq!(s.observe(&frame, 1500, local), Observed::Recorded);
    assert_eq!(s.tx_delta, 1500);
    assert_eq!(s.rx_delta, 0);
    assert_eq!(s.host_delta(local), 1500);
    assert_eq!(s.host_delta(host_from_octets(10, 0, 0, 9)), 1500);
    assert_eq!(s.observe(&frame[..20], 1500, local), Observed::Ignored);
    frame[12] = 0x86;
    frame[13] = 0xdd;
    assert_eq!(s.observe(&frame, 1500, local), Observed::Ignored);
    assert_eq!(s.tx_delta, 1500);
    frame[12] = 0x08;
    frame[13] = 0x00;
    assert_eq!(s.observe(&frame, u64::MAX, local), Observed::Full);
    assert_eq!(s.tx_delta, 1500);
    assert_eq!(s.host_delta(local), 1500);
}
