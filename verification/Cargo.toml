[package]
name = "kalico_host_rt"
version = "0.1.0"
edition = "2021"
publish = false

[dependencies]
arc-swap = "1"
flate2 = "1"
indexmap = { version = "2", features = ["serde"] }
libc = "0.2"
log = "0.4"
serde = { version = "1", features = ["derive"] }
serde_json = "1"
serialport = { version = "4", default-features = false }
time = "0.3"
tracing = "0.1"
