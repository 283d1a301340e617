use mqtt_hostname_online::live::{
    is_finite_text, on_loop, Battery, BatteryState, Component, LiveSnapshot, LoadAverage, TICK_SECS,
};
use mqtt_hostname_online::publication::{Publication, Qos};
use mqtt_hostname_online::mqtt::{connect, SessionConfig};

fn config(host: &str, retain: bool) -> SessionConfig {
    connect("localhost", 1883, None, None, host, retain).unwrap().config().clone()
}

fn component(label: &str, temperature: Option<f32>) -> Component {
    Component { label: label.to_string(), temperature: temperature.map(|t| t.to_string()) }
}

fn quiet_snapshot() -> LiveSnapshot {
    LiveSnapshot {
        uptime_secs: 300,
        load: LoadAverage {
            one: 0.5f64.to_string(),
            five: 1.25f64.to_string(),
            fifteen: 2f64.to_string(),
        },
        components: Vec::new(),
        batteries: Vec::new(),
    }
}

fn pairs(list: &[Publication]) -> Vec<(String, String)> {
    list.iter().map(|p| (p.topic.clone(), p.payload.clone())).collect()
}

fn expected(list: &[(&str, &str)]) -> Vec<(String, String)> {
    list.iter().map(|(t, p)| (t.to_string(), p.to_string())).collect()
}

#[test]
fn quiet_tick_publishes_uptime_and_load() {
    let out = on_loop(&config("box1", true), &quiet_snapshot());
    assert_eq!(
        pairs(&out),
        expected(&[
            ("box1/uptime", "5.0 minutes"),
            ("box1/load/one", "0.5"),
            ("box1/load/five", "1.25"),
            ("box1/load/fifteen", "2"),
        ])
    );
    assert!(out.iter().all(|p| !p.retain && p.qos == Qos::AtLeastOnce));
    assert_eq!(TICK_SECS, 60);
}

#[test]
fn tick_publishes_one_temperature_per_finite_sensor() {
    let snapshot = LiveSnapshot {
        components: vec![
            component("coretemp Core 0", Some(41.5)),
            component(" nvme Composite ", Some(33.0)),
            component("broken", Some(f32::NAN)),
            component("hot", Some(f32::INFINITY)),
            component("cold", Some(f32::NEG_INFINITY)),
            component("silent", None),
            component("acpitz/temp1", Some(-3.25)),
        ],
        ..quiet_snapshot()
    };
    let out = on_loop(&config("box1", true), &snapshot);
    assert_eq!(
        pairs(&out[4..]),
        expected(&[
            ("box1/component-temperature/coretemp-Core-0", "41.5"),
            ("box1/component-temperature/nvme-Composite", "33"),
            ("box1/component-temperature/acpitz-temp1", "-3.25"),
        ])
    );
}

#[test]
fn non_finite_text_is_told_apart() {
    assert!(!is_finite_text(&f32::NAN.to_string()));
    assert!(!is_finite_text(&f32::INFINITY.to_string()));
    assert!(!is_finite_text(&f32::NEG_INFINITY.to_string()));
    assert!(!is_finite_text(&f64::NAN.to_string()));
    assert!(is_finite_text(&f32::MAX.to_string()));
    assert!(is_finite_text(&0f32.to_string()));
    assert!(is_finite_text("41.5"));
    assert!(is_finite_text(""));
}

#[test]
fn tick_publishes_every_battery_on_the_same_topics() {
    let snapshot = LiveSnapshot {
        uptime_secs: 72_000,
        batteries: vec![
            Battery {
                charge: 0.5f32.to_string(),
                state: BatteryState::Discharging,
                health: 0.875f32.to_string(),
                cycle_count: Some(312),
            },
            Battery {
                charge: 1f32.to_string(),
                state: BatteryState::Full,
                health: 0.25f32.to_string(),
                cycle_count: None,
            },
        ],
        ..quiet_snapshot()
    };
    let out = on_loop(&config("box1", false), &snapshot);
    assert_eq!(
        pairs(&out),
        expected(&[
            ("box1/uptime", "20.0 hours"),
            ("box1/load/one", "0.5"),
            ("box1/load/five", "1.25"),
            ("box1/load/fifteen", "2"),
            ("box1/battery/charge", "0.5"),
            ("box1/battery/state", "discharging"),
            ("box1/battery/health", "0.875"),
            ("box1/battery/cycle_count", "312"),
            ("box1/battery/charge", "1"),
            ("box1/battery/state", "full"),
            ("box1/battery/health", "0.25"),
        ])
    );
}

#[test]
fn battery_states_have_their_words() {
    assert_eq!(BatteryState::Unknown.label(), "unknown");
    assert_eq!(BatteryState::Charging.label(), "charging");
    assert_eq!(BatteryState::Discharging.label(), "discharging");
    assert_eq!(BatteryState::Empty.label(), "empty");
    assert_eq!(BatteryState::Full.label(), "full");
    assert_eq!(BatteryState::Paused.label(), "paused");
}

#[test]
fn tick_payloads_are_not_trimmed() {
    let snapshot = LiveSnapshot {
        load: LoadAverage {
            one: " 0.5 ".to_string(),
            five: "1".to_string(),
            fifteen: "2".to_string(),
        },
        ..quiet_snapshot()
    };
    let out = on_loop(&config("box1", true), &snapshot);
    assert_eq!(out[1].payload, " 0.5 ");
}

#[test]
fn tick_never_publishes_to_status() {
    let snapshot = LiveSnapshot {
        components: vec![component("status", Some(1.0)), component("", Some(2.0))],
        batteries: vec![Battery {
            charge: "online".to_string(),
            state: BatteryState::Unknown,
            health: "offline".to_string(),
            cycle_count: Some(0),
        }],
        ..quiet_snapshot()
    };
    let out = on_loop(&config("box1", true), &snapshot);
    assert_eq!(out.len(), 10);
    assert!(out.iter().all(|p| p.topic != "box1/status" && !p.retain));
    assert_eq!(out[4].topic, "box1/component-temperature/status");
    assert_eq!(out[5].topic, "box1/component-temperature/");
}
