use mqtt_hostname_online::text::{decimal_string, is_ascii_alphanumeric, is_whitespace, trim};
use mqtt_hostname_online::topic::{name, sanitize};

#[test]
fn name_joins_host_and_metric_path() {
    assert_eq!(name("box1", "status"), "box1/status");
    assert_eq!(name("box1", "load/one"), "box1/load/one");
    assert_eq!(name("", ""), "/");
}

#[test]
fn sanitize_replaces_what_is_no_letter_or_digit() {
    assert_eq!(sanitize("coretemp Core 0"), "coretemp-Core-0");
    assert_eq!(sanitize("  nvme Composite WDC  "), "nvme-Composite-WDC");
    assert_eq!(sanitize("acpitz temp1"), "acpitz-temp1");
    assert_eq!(sanitize("a/b+c#d"), "a-b-c-d");
    assert_eq!(sanitize("Größe"), "Gr--e");
    assert_eq!(sanitize("k10temp_Tctl"), "k10temp-Tctl");
}

#[test]
fn sanitize_trims_before_it_replaces() {
    assert_eq!(sanitize(" a b "), "a-b");
    assert_eq!(sanitize("\t\n x \r\n"), "x");
    assert_eq!(sanitize("\u{a0}x\u{3000}"), "x");
    assert_eq!(sanitize("- x -"), "--x--");
}

#[test]
fn sanitize_of_nothing_is_nothing() {
    assert_eq!(sanitize(""), "");
    assert_eq!(sanitize("   "), "");
}

#[test]
fn sanitize_twice_is_sanitize_once() {
    for label in ["coretemp Core 0", "  a  b  ", "", " -x- ", "Tctl/Tdie", "ä ö ü", "\u{2003}wide\u{2003}"] {
        let once = sanitize(label);
        assert_eq!(sanitize(&once), once);
        assert!(once.chars().all(|c| c.is_ascii_alphanumeric() || c == '-'));
        assert_eq!(once.trim(), once);
    }
}

#[test]
fn sanitize_agrees_with_trim_and_replace() {
    for label in ["coretemp Core 0", "  a  b  ", "", " -x- ", "Tctl/Tdie", "ä ö ü", " \u{85}x y\u{1680} "] {
        let expected = label.trim().replace(|c: char| !c.is_ascii_alphanumeric(), "-");
        assert_eq!(sanitize(label), expected);
    }
}

#[test]
fn whitespace_is_what_unicode_says() {
    let mut n: u32 = 0;
    while n <= 0x10ffff {
        if let Some(c) = char::from_u32(n) {
            assert_eq!(is_whitespace(c), c.is_whitespace(), "at U+{n:04X}");
            assert_eq!(is_ascii_alphanumeric(c), c.is_ascii_alphanumeric(), "at U+{n:04X}");
        }
        n += 1;
    }
}

#[test]
fn trim_takes_whitespace_off_both_ends() {
    for s in ["", " ", "a", " a", "a ", "  a b  ", "\n\ta\u{2028}", "\u{feff}a ", " \u{200b} ", "x\u{0}"] {
        assert_eq!(trim(s), s.trim());
    }
}

#[test]
fn decimal_string_writes_plain_digits() {
    assert_eq!(decimal_string(0), "0");
    assert_eq!(decimal_string(7), "7");
    assert_eq!(decimal_string(10), "10");
    assert_eq!(decimal_string(1883), "1883");
    assert_eq!(decimal_string(u64::MAX), "18446744073709551615");
}
