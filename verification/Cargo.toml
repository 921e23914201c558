[package]
name = "mxu_telemetry"
version = "0.1.0"
edition = "2021"
publish = false

[dependencies]
chrono = "0.4"
log = "0.4"
machine-uid = "*"
semver = "1"
sentry = { version = "*", default-features = false, features = ["test", "logs", "release-health"] }
serde = { version = "1", features = ["derive"] }
serde_json = "1"
sha2 = "0.10"
sysinfo = "*"
winsafe = { version = "*", features = ["advapi"] }
zip = { version = "*", default-features = false }
