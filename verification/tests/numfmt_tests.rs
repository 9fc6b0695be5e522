use larql::numfmt::{format_bytes, format_number};

#[test]
fn format_number_small() {
    assert_eq!(format_number(42), "42");
    assert_eq!(format_number(999), "999");
}

#[test]
fn format_number_thousands() {
    assert_eq!(format_number(1_000), "1.0K");
    assert_eq!(format_number(10_240), "10.2K");
    assert_eq!(format_number(348_160), "348.2K");
}

#[test]
fn format_number_millions() {
    assert_eq!(format_number(1_000_000), "1.00M");
    assert_eq!(format_number(2_917_432), "2.92M");
}

#[test]
fn format_bytes_small() {
    assert_eq!(format_bytes(512), "512 B");
}

#[test]
fn format_bytes_kb() {
    assert_eq!(format_bytes(2048), "2.0 KB");
}

#[test]
fn format_bytes_mb() {
    let mb = 5 * 1_048_576;
    assert_eq!(format_bytes(mb), "5.0 MB");
}

#[test]
fn format_bytes_gb() {
    let gb = 6_420_000_000;
    assert!(format_bytes(gb).contains("GB"));
    assert_eq!(format_bytes(gb), format!("{:.2} GB", gb as f64 / 1_073_741_824.0));
}

#[test]
fn format_number_agrees_with_float_formatting() {
    let samples: Vec<usize> = vec![
        0, 1, 999, 1_000, 1_049, 1_050, 1_051, 1_250, 1_350, 9_950, 9_999, 10_250, 12_345, 99_950,
        999_949, 999_950, 999_999, 1_000_000, 1_005_000, 1_015_000, 1_234_567, 9_995_000,
        12_345_678, 999_995_000, usize::MAX / 3, usize::MAX - 1, usize::MAX,
    ];
    for n in samples {
        let expected = if n >= 1_000_000 {
            format!("{:.2}M", n as f64 / 1_000_000.0)
        } else if n >= 1_000 {
            format!("{:.1}K", n as f64 / 1_000.0)
        } else {
            format!("{n}")
        };
        assert_eq!(format_number(n), expected, "n = {n}");
    }
    let mut x: usize = 7;
    for _ in 0..2000 {
        x = x.wrapping_mul(6364136223846793005).wrapping_add(1442695040888963407);
        for n in [x % 2_000_000, x % 50_000_000_000, x] {
            let expected = if n >= 1_000_000 {
                format!("{:.2}M", n as f64 / 1_000_000.0)
            } else if n >= 1_000 {
                format!("{:.1}K", n as f64 / 1_000.0)
            } else {
                format!("{n}")
            };
            assert_eq!(format_number(n), expected, "n = {n}");
        }
    }
}

#[test]
fn format_bytes_agrees_with_float_formatting() {
    let samples: Vec<u64> = vec![
        0, 1023, 1024, 1075, 1076, 1127, 1_048_575, 1_048_576, 1_101_004, 1_073_741_823,
        1_073_741_824, 1_079_110_533, 1_084_479_242, 9_007_199_254_740_993, u64::MAX - 1, u64::MAX,
    ];
    let mut all = samples.clone();
    let mut x: u64 = 11;
    for _ in 0..3000 {
        x = x.wrapping_mul(6364136223846793005).wrapping_add(1442695040888963407);
        all.push(x);
        all.push(x % 4_000_000_000);
        all.push(x % 3_000_000);
    }
    for b in all {
        let expected = if b >= 1_073_741_824 {
            format!("{:.2} GB", b as f64 / 1_073_741_824.0)
        } else if b >= 1_048_576 {
            format!("{:.1} MB", b as f64 / 1_048_576.0)
        } else if b >= 1024 {
            format!("{:.1} KB", b as f64 / 1024.0)
        } else {
            format!("{b} B")
        };
        assert_eq!(format_bytes(b), expected, "b = {b}");
    }
}

#[test]
fn format_rounds_ties_to_even() {
    assert_eq!(format_bytes(1_024 + 51), "1.0 KB");
    assert_eq!(format_bytes(1_024 * 25 / 10 + 52), "2.6 KB");
    assert_eq!(format_number(999_950), "1000.0K");
}
