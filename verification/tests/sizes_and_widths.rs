use colorls::util::{display_width, display_width_checked, human_size};

/// The size text as formatting the `f64` size with one decimal gives it.
fn float_size(bytes: u64) -> String {
    let units = ["B", "K", "M", "G", "T", "P"];
    if bytes == 0 {
        return "0B".to_string();
    }
    let mut size = bytes as f64;
    let mut unit_idx = 0;
    while size >= 1024.0 && unit_idx < units.len() - 1 {
        size /= 1024.0;
        unit_idx += 1;
    }
    if unit_idx == 0 {
        format!("{}{}", bytes, units[0])
    } else {
        format!("{:.1}{}", size, units[unit_idx])
    }
}

#[test]
fn human_size_bytes() {
    assert_eq!(human_size(0), "0B");
    assert_eq!(human_size(512), "512B");
    assert_eq!(human_size(1023), "1023B");
}

#[test]
fn human_size_kilobytes_and_up() {
    assert_eq!(human_size(1024), "1.0K");
    assert_eq!(human_size(1536), "1.5K");
    assert_eq!(human_size(1024 * 1024), "1.0M");
    assert_eq!(human_size(1024 * 1024 * 1024), "1.0G");
}

#[test]
fn human_size_rounds_halves_to_even() {
    assert_eq!(human_size(1280), "1.2K");
    assert_eq!(human_size(1331), "1.3K");
    assert_eq!(human_size(1126), "1.1K");
    assert_eq!(human_size(1075), "1.0K");
    assert_eq!(human_size(1024 * 1023), "1023.0K");
    assert_eq!(human_size(1024 * 1024 - 1), "1024.0K");
}

#[test]
fn human_size_largest_units() {
    assert_eq!(human_size(1u64 << 40), "1.0T");
    assert_eq!(human_size(1u64 << 50), "1.0P");
    assert_eq!(human_size(u64::MAX), "16384.0P");
    assert_eq!(human_size(u64::MAX), float_size(u64::MAX));
}

#[test]
fn human_size_agrees_with_float_formatting() {
    let mut n: u64 = 1;
    let mut probes: Vec<u64> = Vec::new();
    while n < u64::MAX / 3 {
        probes.push(n);
        probes.push(n + 1);
        probes.push(n.wrapping_sub(1));
        probes.push(n + n / 2);
        probes.push(n + n / 20);
        probes.push(n + n / 20 + 1);
        probes.push(n * 3 - 1);
        n = n * 3 + 7;
    }
    for k in 0..64u32 {
        let p = 1u64 << k;
        probes.push(p);
        probes.push(p - 1);
        probes.push(p + p / 40);
        probes.push(p + p / 40 * 3);
    }
    for b in 0..5000u64 {
        probes.push(b);
        probes.push(b * 1024 + 51);
        probes.push(b * 1024 * 1024 + 52_428);
    }
    for p in probes {
        assert_eq!(human_size(p), float_size(p), "size {}", p);
    }
}

#[test]
fn display_width_ascii() {
    assert_eq!(display_width("hello"), 5);
    assert_eq!(display_width(""), 0);
}

#[test]
fn display_width_icon_glyph_counts_as_two() {
    let icon = "\u{f15b}";
    assert_eq!(display_width(icon), 2);
}

#[test]
fn display_width_wide_and_zero_width_characters() {
    assert_eq!(display_width("\u{4e2d}\u{6587}"), 4);
    assert_eq!(display_width("e\u{301}"), 1);
    assert_eq!(display_width("\u{f0001} x"), 4);
    assert_eq!(display_width_checked("ab\u{4e2d}"), Some(4));
}
