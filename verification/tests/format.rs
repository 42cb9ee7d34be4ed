use disk_maint::format_bytes;

#[test]
fn formats_human_readable_sizes() {
    assert_eq!(format_bytes(0), "0B");
    assert_eq!(format_bytes(400), "400B");
    assert_eq!(format_bytes(4096), "4.0K");
    assert_eq!(format_bytes(1_572_864), "1.5M");
    assert_eq!(format_bytes(1_234_567_890), "1.1G");
}

#[test]
fn formats_sizes_at_unit_boundaries() {
    assert_eq!(format_bytes(1023), "1023B");
    assert_eq!(format_bytes(1024), "1.0K");
    assert_eq!(format_bytes(10 * 1024), "10K");
    assert_eq!(format_bytes(1024 * 1024 - 1), "1024K");
    assert_eq!(format_bytes(1 << 40), "1.0T");
    assert_eq!(format_bytes(u64::MAX), "16777216T");
}

#[test]
fn rounds_ties_to_even() {
    // 1.25K and 1.35K: the first is an exact tie and rounds to the even digit.
    assert_eq!(format_bytes(1280), "1.2K");
    assert_eq!(format_bytes(10752), "10K");
    assert_eq!(format_bytes(11776), "12K");
}

#[test]
fn matches_float_formatting() {
    for bytes in [1024u64, 1500, 2047, 9999, 10239, 10240, 123_456, 77_000_000, 999_999_999_999, 1 << 53, (1 << 53) + 1, u64::MAX - 1] {
        let expected = reference(bytes);
        assert_eq!(format_bytes(bytes), expected, "bytes = {bytes}");
    }
}

fn reference(bytes: u64) -> String {
    const UNITS: &[&str] = &["B", "K", "M", "G", "T"];
    if bytes < 1024 {
        return format!("{bytes}B");
    }
    let mut value = bytes as f64;
    let mut unit = 0;
    while value >= 1024.0 && unit < UNITS.len() - 1 {
        value /= 1024.0;
        unit += 1;
    }
    if value >= 10.0 {
        format!("{value:.0}{}", UNITS[unit])
    } else {
        format!("{value:.1}{}", UNITS[unit])
    }
}
