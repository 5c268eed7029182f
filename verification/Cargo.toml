[package]
name = "thread_monitor"
version = "0.1.0"
edition = "2021"
publish = false

[dependencies]
crossbeam = "=0.8.5"
time = "=0.3.55"
log = "=0.4.35"
lazy_static = "=1.5.1"
oneshot = { version = "=0.2.1", features = ["std"] }
