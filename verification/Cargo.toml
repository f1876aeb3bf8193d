[package]
name = "ruuvimqtt"
version = "0.1.0"
edition = "2021"
publish = false

[dependencies]
regex = "=1.13.1"
ruuvi-sensor-protocol = "=0.7.0"
uuid = { version = "=1.29.0", features = ["v4"] }
tokio = { version = "=1.54.1", features = ["rt-multi-thread", "macros", "sync", "time", "signal"] }
rumqttc = { version = "=0.25.1", default-features = false }
btleplug = "=0.13.5"
futures = "=0.3.34"
log = "=0.4.34"
env_logger = "=0.11.11"
