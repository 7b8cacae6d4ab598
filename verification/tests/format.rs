use netwatch::format::{div_round_half_even, format_bytes_total, format_two_places, round_to_53_bits};

#[test]
fn plain_bytes_below_one_kibibyte() {
    assert_eq!(format_bytes_total(0), "0 B");
    assert_eq!(format_bytes_total(7), "7 B");
    assert_eq!(format_bytes_total(1023), "1023 B");
}

#[test]
fn kibibytes_with_two_places() {
    assert_eq!(format_bytes_total(1024), "1.00 KiB");
    assert_eq!(format_bytes_total(1536), "1.50 KiB");
    assert_eq!(format_bytes_total(1029), "1.00 KiB");
    assert_eq!(format_bytes_total(1030), "1.01 KiB");
    assert_eq!(format_bytes_total(1048575), "1024.00 KiB");
}

#[test]
fn ties_go_to_the_even_hundredth() {
    // 1152 / 1024 = 1.125 and 1408 / 1024 = 1.375
    assert_eq!(format_bytes_total(1152), "1.12 KiB");
    assert_eq!(format_bytes_total(1408), "1.38 KiB");
}

#[test]
fn mebibytes_and_gibibytes() {
    assert_eq!(format_bytes_total(1048576), "1.00 MiB");
    assert_eq!(format_bytes_total(5 * 1048576 + 524288), "5.50 MiB");
    assert_eq!(format_bytes_total(1073741823), "1024.00 MiB");
    assert_eq!(format_bytes_total(1073741824), "1.00 GiB");
    assert_eq!(format_bytes_total(3 * 1073741824 + 268435456), "3.25 GiB");
    assert_eq!(format_bytes_total(u64::MAX), "17179869184.00 GiB");
}

#[test]
fn rounding_helpers_give_exact_values() {
    assert_eq!(div_round_half_even(5, 2), 2);
    assert_eq!(div_round_half_even(7, 2), 4);
    assert_eq!(div_round_half_even(10, 4), 2);
    assert_eq!(div_round_half_even(11, 4), 3);
    assert_eq!(div_round_half_even(0, 9), 0);
    assert_eq!(round_to_53_bits(12345), 12345);
    assert_eq!(round_to_53_bits((1u64 << 53) + 1), 1u128 << 53);
    assert_eq!(round_to_53_bits((1u64 << 53) + 3), (1u128 << 53) + 4);
    assert_eq!(round_to_53_bits(u64::MAX), 1u128 << 64);
    assert_eq!(format_two_places(1205, " x"), "12.05 x");
    assert_eq!(format_two_places(7, ""), "0.07");
}

fn with_floats(bytes: u64) -> String {
    const KB: u64 = 1024;
    const MB: u64 = 1024 * KB;
    const GB: u64 = 1024 * MB;
    if bytes >= GB {
        format!("{:.2} GiB", bytes as f64 / GB as f64)
    } else if bytes >= MB {
        format!("{:.2} MiB", bytes as f64 / MB as f64)
    } else if bytes >= KB {
        format!("{:.2} KiB", bytes as f64 / KB as f64)
    } else {
        format!("{} B", bytes)
    }
}

#[test]
fn agrees_with_floating_point_rendering() {
    let mut samples: Vec<u64> = vec![0, 1, 9, 10, 99, 100, 1023, 1024, 1025, u64::MAX, u64::MAX - 1];
    for shift in 0..64u32 {
        let p = 1u64 << shift;
        for d in 0..40u64 {
            samples.push(p.wrapping_add(d));
            samples.push(p.wrapping_sub(d));
            samples.push(p.wrapping_add(p / 2).wrapping_add(d));
            samples.push(p.wrapping_add(p / 8).wrapping_sub(d));
            samples.push(p.wrapping_add(p / 200).wrapping_add(d));
        }
    }
    let mut x: u64 = 0x9E37_79B9_7F4A_7C15;
    for _ in 0..20000 {
        x ^= x << 13;
        x ^= x >> 7;
        x ^= x << 17;
        samples.push(x);
        samples.push(x >> 11);
        samples.push(x >> 24);
        samples.push(x >> 40);
        samples.push(x >> 52);
    }
    // every tie among the KiB values, and ties at the edge of 53 bits
    for k in 0..1000u64 {
        samples.push(1024 + 128 * k);
        samples.push((1u64 << 53) + (k << 1) + 1);
        samples.push((1u64 << 60) + (k << 7) + 64);
        samples.push((1u64 << 63) + (k << 10) + 1024);
    }
    for bytes in samples {
        assert_eq!(format_bytes_total(bytes), with_floats(bytes), "for {}", bytes);
    }
}
