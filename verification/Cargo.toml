[package]
name = "rtc_quebec_gtfs_rt"
version = "0.1.0"
edition = "2021"
publish = false

[dependencies]
chrono = "0.4"
chrono-tz = "*"
futures = "0.3"
gtfs-realtime = "*"
gtfs-structures = { version = "*", default-features = false }
reqwest = { version = "0.12", default-features = false, features = ["rustls-tls"] }
serde = { version = "1", features = ["derive"] }
serde_json = "1"
