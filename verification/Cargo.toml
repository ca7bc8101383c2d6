[package]
name = "pc_monitoring"
version = "0.1.0"
edition = "2021"
publish = false

[dependencies]
clap = { version = "=4.6.7", features = ["derive"] }
log = "=0.4.34"
simple_logger = "=5.2.0"
systemd-journal-logger = "=2.2.2"
serialport = { version = "=4.10.1", default-features = false }
rusb = "=0.9.4"
