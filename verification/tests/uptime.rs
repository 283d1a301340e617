use mqtt_hostname_online::format_uptime;

/// The same figures by floating-point arithmetic.
fn by_floats(uptime: u64) -> String {
    let seconds = uptime as f64;
    let minutes = seconds / 60.0;
    if minutes < 100.0 {
        return format!("{minutes:.1} minutes");
    }
    let hours = minutes / 60.0;
    if hours < 24.0 {
        return format!("{hours:.1} hours");
    }
    let days = hours / 24.0;
    format!("{days:.1} days")
}

#[test]
fn format_days_examples() {
    assert_eq!(format_uptime(30), "0.5 minutes");
    assert_eq!(format_uptime(60 * 5), "5.0 minutes");
    assert_eq!(format_uptime(60 * 90), "90.0 minutes");
    assert_eq!(format_uptime(60 * 60 * 5), "5.0 hours");
    assert_eq!(format_uptime(60 * 60 * 20), "20.0 hours");
    assert_eq!(format_uptime(60 * 60 * 24 * 5), "5.0 days");
}

#[test]
fn uptime_of_nothing() {
    assert_eq!(format_uptime(0), "0.0 minutes");
}

#[test]
fn uptime_thresholds_are_strict() {
    assert_eq!(format_uptime(5999), "100.0 minutes");
    assert_eq!(format_uptime(6000), "1.7 hours");
    assert_eq!(format_uptime(86399), "24.0 hours");
    assert_eq!(format_uptime(86400), "1.0 days");
}

#[test]
fn uptime_halfway_cases() {
    assert_eq!(format_uptime(3), "0.1 minutes");
    assert_eq!(format_uptime(9), "0.1 minutes");
    assert_eq!(format_uptime(15), "0.2 minutes");
    assert_eq!(format_uptime(45), "0.8 minutes");
}

#[test]
fn uptime_agrees_with_floats_on_every_early_second() {
    let mut s: u64 = 0;
    while s < 400_000 {
        assert_eq!(format_uptime(s), by_floats(s), "at {s} seconds");
        s += 1;
    }
}

#[test]
fn uptime_agrees_with_floats_on_halfway_days() {
    let mut k: u64 = 0;
    while k < 200_000 {
        let s = 4320 + 8640 * k;
        assert_eq!(format_uptime(s), by_floats(s), "at {s} seconds");
        k += 1;
    }
}

#[test]
fn uptime_agrees_with_floats_on_large_values() {
    let mut s: u64 = 1;
    let mut step: u64 = 1;
    while s < u64::MAX / 3 {
        for d in [0u64, 1, 2, 3, 59, 60, 61, 4319, 4320, 4321] {
            let v = s.wrapping_add(d);
            assert_eq!(format_uptime(v), by_floats(v), "at {v} seconds");
            let w = s.wrapping_sub(d);
            assert_eq!(format_uptime(w), by_floats(w), "at {w} seconds");
        }
        s = s.wrapping_mul(3).wrapping_add(step);
        step += 7;
    }
    for v in [u64::MAX, u64::MAX - 1, 1 << 63, (1 << 53) + 1, (1 << 53) - 1, (1 << 54) + 2, (1 << 54) + 3] {
        assert_eq!(format_uptime(v), by_floats(v), "at {v} seconds");
    }
}

/// The uptime in whole numbers: the tenths of its unit, rounded to the nearest, or one
/// fewer where `down` says so.
fn in_whole_numbers(uptime: u64, down: bool) -> String {
    let (span, unit) = if uptime < 6000 {
        (6, "minutes")
    } else if uptime < 86400 {
        (360, "hours")
    } else {
        (8640, "days")
    };
    let tenths = (uptime + span / 2) / span - u64::from(down);
    format!("{}.{} {unit}", tenths / 10, tenths % 10)
}

fn is_halfway(uptime: u64) -> bool {
    let span = if uptime < 6000 {
        6
    } else if uptime < 86400 {
        360
    } else {
        8640
    };
    2 * (uptime % span) == span
}

fn assert_nearest_tenth(uptime: u64) {
    let text = format_uptime(uptime);
    if is_halfway(uptime) {
        assert!(
            text == in_whole_numbers(uptime, false) || text == in_whole_numbers(uptime, true),
            "at {uptime} seconds: {text}"
        );
    } else {
        assert_eq!(text, in_whole_numbers(uptime, false), "at {uptime} seconds");
    }
}

#[test]
fn uptime_is_the_quotient_to_the_nearest_tenth() {
    let mut s: u64 = 0;
    while s < 300_000 {
        assert_nearest_tenth(s);
        s += 1;
    }
    let mut s: u64 = 300_000;
    while s < (1 << 50) {
        for d in 0..7 {
            assert_nearest_tenth(s + d * 1234);
        }
        s = s * 5 / 4 + 8640;
    }
    assert_nearest_tenth((1 << 50) - 1);
}

#[test]
fn uptime_unit_changes_at_a_hundred_minutes_and_at_a_day() {
    assert_eq!(format_uptime(5_999), "100.0 minutes");
    assert_eq!(format_uptime(6_000), "1.7 hours");
    assert_eq!(format_uptime(6_001), "1.7 hours");
    assert_eq!(format_uptime(86_399), "24.0 hours");
    assert_eq!(format_uptime(86_400), "1.0 days");
    assert_eq!(format_uptime(u64::MAX), "213503982334601.3 days");
}

#[test]
fn uptime_agrees_with_floats_at_every_magnitude() {
    let mut state: u64 = 0x9e37_79b9_7f4a_7c15;
    for bits in 1..=64u32 {
        for _ in 0..4000 {
            state ^= state << 13;
            state ^= state >> 7;
            state ^= state << 17;
            let v = state >> (64 - bits);
            assert_eq!(format_uptime(v), by_floats(v), "at {v} seconds");
        }
    }
}
