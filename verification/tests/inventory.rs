use mqtt_hostname_online::inventory::{
    inventory_publications, on_start, Cpu, Inventory, Motherboard, Package, Product,
};
use mqtt_hostname_online::listing::{insert_label, join};
use mqtt_hostname_online::moment::{format_boot_time, signed_seconds, BootTime};
use mqtt_hostname_online::publication::{Publication, Qos};
use mqtt_hostname_online::mqtt::{connect, SessionConfig};

fn config(host: &str, retain: bool) -> SessionConfig {
    connect("localhost", 1883, None, None, host, retain).unwrap().config().clone()
}

fn cpu(brand: &str, vendor_id: &str) -> Cpu {
    Cpu { brand: brand.to_string(), vendor_id: vendor_id.to_string() }
}

fn bare_inventory() -> Inventory {
    Inventory {
        package: Package {
            name: "agent".to_string(),
            version: "1.2.3".to_string(),
            repository: "https://example.org/agent".to_string(),
        },
        boot_time: BootTime { epoch_secs: 0, utc_offset_secs: 0 },
        distribution_id: "debian".to_string(),
        os_name: None,
        os_version: None,
        kernel_version: None,
        cpu_arch: "x86_64".to_string(),
        physical_cores: None,
        cpus: Vec::new(),
        motherboard: None,
        product: Product {
            name: None,
            family: None,
            stock_keeping_unit: None,
            vendor: None,
            version: None,
        },
    }
}

fn pairs(list: &[Publication]) -> Vec<(String, String)> {
    list.iter().map(|p| (p.topic.clone(), p.payload.clone())).collect()
}

fn expected(list: &[(&str, &str)]) -> Vec<(String, String)> {
    list.iter().map(|(t, p)| (t.to_string(), p.to_string())).collect()
}

#[test]
fn boot_time_is_written_as_rfc3339() {
    assert_eq!(
        format_boot_time(&BootTime { epoch_secs: 0, utc_offset_secs: 0 }),
        Some("1970-01-01T00:00:00+00:00".to_string())
    );
    assert_eq!(
        format_boot_time(&BootTime { epoch_secs: 1_700_000_000, utc_offset_secs: 3600 }),
        Some("2023-11-14T23:13:20+01:00".to_string())
    );
    assert_eq!(
        format_boot_time(&BootTime { epoch_secs: 1_700_000_000, utc_offset_secs: -19_800 }),
        Some("2023-11-14T16:43:20-05:30".to_string())
    );
}

#[test]
fn seconds_are_signed_if_they_fit() {
    assert_eq!(signed_seconds(0), Some(0));
    assert_eq!(signed_seconds(1_700_000_000), Some(1_700_000_000));
    assert_eq!(signed_seconds(i64::MAX as u64), Some(i64::MAX));
    assert_eq!(signed_seconds(i64::MAX as u64 + 1), None);
    assert_eq!(signed_seconds(u64::MAX), None);
}

#[test]
fn boot_time_out_of_range_is_left_out() {
    assert_eq!(format_boot_time(&BootTime { epoch_secs: u64::MAX, utc_offset_secs: 0 }), None);
    assert_eq!(
        format_boot_time(&BootTime { epoch_secs: i64::MAX as u64 + 1, utc_offset_secs: 0 }),
        None
    );
    assert_eq!(format_boot_time(&BootTime { epoch_secs: i64::MAX as u64, utc_offset_secs: 0 }), None);
    assert_eq!(format_boot_time(&BootTime { epoch_secs: 0, utc_offset_secs: 86_400 }), None);
    assert_eq!(format_boot_time(&BootTime { epoch_secs: 0, utc_offset_secs: -86_400 }), None);
}

#[test]
fn bare_inventory_publishes_what_is_there() {
    let out = on_start(&config("box1", true), &bare_inventory());
    assert_eq!(
        pairs(&out),
        expected(&[
            ("box1/agent/repository", "https://example.org/agent"),
            ("box1/agent/version", "1.2.3"),
            ("box1/boot-time", "1970-01-01T00:00:00+00:00"),
            ("box1/distribution", "debian"),
            ("box1/cpu-arch", "x86_64"),
            ("box1/cpu-threads", "0"),
            ("box1/cpu-brand", ""),
            ("box1/cpu-vendor", ""),
        ])
    );
    assert!(out.iter().all(|p| p.retain && p.qos == Qos::AtLeastOnce));
}

#[test]
fn full_inventory_publishes_everything_in_order() {
    let inventory = Inventory {
        boot_time: BootTime { epoch_secs: 1_700_000_000, utc_offset_secs: 7200 },
        os_name: Some("Debian GNU/Linux".to_string()),
        os_version: Some(" Linux (Debian 12) \n".to_string()),
        kernel_version: Some("6.1.0-13-amd64".to_string()),
        physical_cores: Some(4),
        cpus: vec![
            cpu(" Intel(R) Core(TM) i5 ", "GenuineIntel"),
            cpu("AMD Ryzen 7", " AuthenticAMD"),
            cpu("Intel(R) Core(TM) i5", "GenuineIntel "),
            cpu("  ", ""),
            cpu("AMD Ryzen 5", "AuthenticAMD"),
            cpu("AMD Ryzen 7", "GenuineIntel"),
            cpu("AMD Ryzen", "GenuineIntel"),
            cpu("amd", "GenuineIntel"),
        ],
        motherboard: Some(Motherboard {
            name: Some("X570".to_string()),
            vendor: None,
            version: Some("Rev 1.0 ".to_string()),
        }),
        product: Product {
            name: Some("ThinkPad".to_string()),
            family: Some("T14".to_string()),
            stock_keeping_unit: Some("LENOVO_MT_20".to_string()),
            vendor: Some("LENOVO".to_string()),
            version: Some("".to_string()),
        },
        ..bare_inventory()
    };
    let out = on_start(&config("box1", false), &inventory);
    assert_eq!(
        pairs(&out),
        expected(&[
            ("box1/agent/repository", "https://example.org/agent"),
            ("box1/agent/version", "1.2.3"),
            ("box1/boot-time", "2023-11-15T00:13:20+02:00"),
            ("box1/distribution", "debian"),
            ("box1/os-name", "Debian GNU/Linux"),
            ("box1/os-version", "Linux (Debian 12)"),
            ("box1/kernel", "6.1.0-13-amd64"),
            ("box1/cpu-arch", "x86_64"),
            ("box1/cpu-cores", "4"),
            ("box1/cpu-threads", "8"),
            ("box1/cpu-brand", "AMD Ryzen; AMD Ryzen 5; AMD Ryzen 7; Intel(R) Core(TM) i5; amd"),
            ("box1/cpu-vendor", "AuthenticAMD; GenuineIntel"),
            ("box1/motherboard/name", "X570"),
            ("box1/motherboard/version", "Rev 1.0"),
            ("box1/product/name", "ThinkPad"),
            ("box1/product/family", "T14"),
            ("box1/product/stock_keeping_unit", "LENOVO_MT_20"),
            ("box1/product/vendor", "LENOVO"),
            ("box1/product/version", ""),
        ])
    );
    assert!(out.iter().all(|p| !p.retain && p.qos == Qos::AtLeastOnce));
}

#[test]
fn boot_time_that_cannot_be_written_is_skipped() {
    let inventory =
        Inventory { boot_time: BootTime { epoch_secs: u64::MAX, utc_offset_secs: 0 }, ..bare_inventory() };
    let out = on_start(&config("box1", true), &inventory);
    assert!(out.iter().all(|p| p.topic != "box1/boot-time"));
    assert_eq!(out.len(), 7);
}

#[test]
fn inventory_takes_the_boot_text_it_is_given() {
    let out = inventory_publications(
        &config("box1", true),
        &bare_inventory(),
        &Some(" 2024-01-01T00:00:00+00:00 ".to_string()),
    );
    assert_eq!(out[2].topic, "box1/boot-time");
    assert_eq!(out[2].payload, "2024-01-01T00:00:00+00:00");
    let without = inventory_publications(&config("box1", true), &bare_inventory(), &None);
    assert_eq!(without.len(), 7);
    assert_eq!(without[2].topic, "box1/distribution");
}

#[test]
fn same_inventory_twice_gives_the_same_publications() {
    let inventory = Inventory {
        cpus: vec![cpu("b", "v"), cpu("a", "v")],
        physical_cores: Some(2),
        ..bare_inventory()
    };
    let first = on_start(&config("box1", true), &inventory);
    let second = on_start(&config("box1", true), &inventory);
    assert_eq!(first, second);
}

#[test]
fn labels_are_listed_as_sort_and_dedup_would() {
    let cases: [&[&str]; 6] = [
        &[],
        &["b", "a", "b"],
        &[" x ", "x", "", "  ", "y"],
        &["ab", "a", "abc", "", "b", "aa", "Z", "é", "e", "z", "\u{10000}", "\u{ffff}"],
        &["Intel", "intel", "INTEL", "Intel "],
        &["; ", ";", " ; x"],
    ];
    for raws in cases {
        let mut list: Vec<Vec<char>> = Vec::new();
        for raw in raws {
            insert_label(&mut list, raw);
        }
        let mut expected: Vec<&str> = raws.iter().map(|r| r.trim()).filter(|r| !r.is_empty()).collect();
        expected.sort_unstable();
        expected.dedup();
        assert_eq!(join(&list, "; "), expected.join("; "));
    }
}
