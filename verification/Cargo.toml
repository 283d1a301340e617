[package]
name = "mqtt_hostname_online"
version = "0.1.0"
edition = "2021"
publish = false

[dependencies]
chrono = "0.4"
clap = { version = "4", features = ["derive", "env"] }
rumqttc = { version = "*", default-features = false }
starship-battery = "*"
sysinfo = "*"
tokio = { version = "1", features = ["macros", "rt", "time"] }
