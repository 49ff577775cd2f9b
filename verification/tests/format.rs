use oxidroid::utils::{fmt_bytes, fmt_uptime};

fn reference_bytes(b: u64) -> String {
    let units = ["B", "KB", "MB", "GB", "TB"];
    let mut v = b as f64;
    let mut i = 0;
    while v >= 1024.0 && i < units.len() - 1 {
        v /= 1024.0;
        i += 1;
    }
    format!("{:.1}{}", v, units[i])
}

#[test]
fn bytes_small_counts() {
    assert_eq!(fmt_bytes(0), "0.0B");
    assert_eq!(fmt_bytes(1), "1.0B");
    assert_eq!(fmt_bytes(1023), "1023.0B");
}

#[test]
fn bytes_unit_boundaries() {
    assert_eq!(fmt_bytes(1024), "1.0KB");
    assert_eq!(fmt_bytes(1536), "1.5KB");
    assert_eq!(fmt_bytes(1048576), "1.0MB");
    assert_eq!(fmt_bytes(1073741824), "1.0GB");
    assert_eq!(fmt_bytes(1099511627776), "1.0TB");
}

#[test]
fn bytes_ties_round_to_even() {
    // 1280 B is exactly 1.25 KB; 1.25 lies halfway and goes to the even tenth.
    assert_eq!(fmt_bytes(1280), "1.2KB");
    assert_eq!(fmt_bytes(1280), reference_bytes(1280));
    // 1.75 KB goes up to 1.8.
    assert_eq!(fmt_bytes(1792), "1.8KB");
}

#[test]
fn bytes_just_below_a_unit_rounds_up_in_the_smaller_one() {
    assert_eq!(fmt_bytes(1048575), "1024.0KB");
    assert_eq!(fmt_bytes(1048575), reference_bytes(1048575));
}

#[test]
fn bytes_terabytes_stay_in_tb() {
    assert_eq!(fmt_bytes(5 * 1099511627776 * 1024), "5120.0TB");
}

#[test]
fn bytes_largest_count() {
    assert_eq!(fmt_bytes(u64::MAX), reference_bytes(u64::MAX));
    assert_eq!(fmt_bytes(u64::MAX), "16777216.0TB");
}

#[test]
fn bytes_agree_with_float_formatting() {
    let mut samples: Vec<u64> = vec![
        999, 1000, 1025, 10239, 10240, 123456, 999999, 5000000, 7340032, 123456789,
        987654321012, 9007199254740993, 9007199254740995, 18014398509481985,
        u64::MAX - 1, 1 << 53, (1 << 53) + 1, (1 << 63) + 1025,
    ];
    let mut x: u64 = 1;
    for _ in 0..200 {
        x = x.wrapping_mul(6364136223846793005).wrapping_add(1442695040888963407);
        samples.push(x >> (x % 60));
    }
    for b in samples {
        assert_eq!(fmt_bytes(b), reference_bytes(b), "bytes {}", b);
    }
}

#[test]
fn uptime_minutes_only() {
    assert_eq!(fmt_uptime(0), "0m");
    assert_eq!(fmt_uptime(59), "0m");
    assert_eq!(fmt_uptime(60), "1m");
    assert_eq!(fmt_uptime(3599), "59m");
}

#[test]
fn uptime_hours() {
    assert_eq!(fmt_uptime(3600), "1h 0m");
    assert_eq!(fmt_uptime(7322), "2h 2m");
}

#[test]
fn uptime_days() {
    assert_eq!(fmt_uptime(86400), "1d 0h 0m");
    assert_eq!(fmt_uptime(90061), "1d 1h 1m");
    assert_eq!(fmt_uptime(3 * 86400 + 7 * 3600 + 41 * 60 + 5), "3d 7h 41m");
}

#[test]
fn uptime_largest() {
    assert_eq!(fmt_uptime(u64::MAX), "213503982334601d 7h 0m");
}
