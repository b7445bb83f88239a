use waka::format::{
    fixed, format_size, formatted_version, pick_unit, signed_fixed, transfer_status, unit_for,
};

/// The size as it is printed with floating point, for comparison.
fn size_with_floats(bytes: i64) -> String {
    if bytes == 0 {
        return "0 B".to_string();
    }
    let prefix = if bytes < 0 { "-" } else { "" };
    let abs_bytes = bytes.checked_abs().unwrap_or(i64::MAX);
    let (unit, suffix) = if abs_bytes >= 1 << 30 {
        (1i64 << 30, "GiB")
    } else if abs_bytes >= 1 << 20 {
        (1i64 << 20, "MiB")
    } else if abs_bytes >= 1024 {
        (1024, "KiB")
    } else {
        (1, "B")
    };
    let val = abs_bytes as f64 / unit as f64;
    if val < 10.0 {
        format!("{}{:.1} {}", prefix, val, suffix)
    } else {
        format!("{}{:.0} {}", prefix, val, suffix)
    }
}

#[test]
fn format_size_known_values() {
    assert_eq!(format_size(0), "0 B");
    assert_eq!(format_size(5), "5.0 B");
    assert_eq!(format_size(1023), "1023 B");
    assert_eq!(format_size(1024), "1.0 KiB");
    assert_eq!(format_size(1536), "1.5 KiB");
    assert_eq!(format_size(1280), "1.2 KiB");
    assert_eq!(format_size(10240), "10 KiB");
    assert_eq!(format_size(1048576), "1.0 MiB");
    assert_eq!(format_size(3 * 1073741824), "3.0 GiB");
    assert_eq!(format_size(-2048), "-2.0 KiB");
    assert_eq!(format_size(-1), "-1.0 B");
}

#[test]
fn format_size_extremes() {
    assert_eq!(format_size(i64::MAX), size_with_floats(i64::MAX));
    assert_eq!(format_size(i64::MIN), size_with_floats(i64::MIN));
    assert_eq!(format_size(i64::MIN), format!("-{}", format_size(i64::MAX)));
}

#[test]
fn format_size_agrees_with_floating_point() {
    let mut n: i64 = 1;
    while n < i64::MAX / 3 {
        for d in [-3i64, -1, 0, 1, 2, 511, 512, 513] {
            let b = n.saturating_add(d);
            assert_eq!(format_size(b), size_with_floats(b), "bytes {}", b);
            assert_eq!(format_size(-b), size_with_floats(-b), "bytes {}", -b);
        }
        n = n * 3 + 7;
    }
    for b in 0..5000i64 {
        assert_eq!(format_size(b * 37), size_with_floats(b * 37));
    }
    for k in 0..200i64 {
        let b = 1024 * 1024 * 10 - 5000 + k * 97;
        assert_eq!(format_size(b), size_with_floats(b));
    }
}

#[test]
fn format_size_negation_law_examples() {
    for b in [1i64, 999, 1024, 1536, 10239, 10240, 123456789, i64::MAX] {
        assert_eq!(format_size(-b), format!("-{}", format_size(b)));
    }
}

#[test]
fn unit_for_thresholds() {
    assert_eq!(unit_for(0), (1, "B"));
    assert_eq!(unit_for(1023), (1, "B"));
    assert_eq!(unit_for(1024), (1024, "KiB"));
    assert_eq!(unit_for(1048575), (1024, "KiB"));
    assert_eq!(unit_for(1048576), (1048576, "MiB"));
    assert_eq!(unit_for(1073741824), (1073741824, "GiB"));
    assert_eq!(unit_for(-5), (1, "B"));
    assert_eq!(pick_unit(5000), (1024, "KiB"));
}

#[test]
fn transfer_status_in_unit_of_total() {
    assert_eq!(transfer_status(0, 1), "0/1 B");
    assert_eq!(transfer_status(512, 2048), "0.5/2.0 KiB");
    assert_eq!(transfer_status(1048576, 3 * 1048576), "1.0/3.0 MiB");
    assert_eq!(transfer_status(300, 700), "300/700 B");
    let done = 123456789i64;
    let total = 987654321i64;
    let unit = (1 << 20) as f64;
    assert_eq!(
        transfer_status(done, total),
        format!("{:.1}/{:.1} MiB", done as f64 / unit, total as f64 / unit)
    );
}

#[test]
fn fixed_decimals() {
    assert_eq!(fixed(1536, 1024, true), "1.5");
    assert_eq!(fixed(1536, 1024, false), "2");
    assert_eq!(fixed(2560, 1024, false), "2");
    assert_eq!(fixed(3584, 1024, false), "4");
    assert_eq!(signed_fixed(-1536, 1024, true), "-1.5");
    assert_eq!(signed_fixed(7, 1, false), "7");
}

#[test]
fn formatted_version_in_parentheses() {
    assert_eq!(formatted_version("1.2-3", true), "(1.2-3)");
    assert_eq!(formatted_version("1.2-3", false), "(\x1b[1;34m1.2-3\x1b[0m)");
}
