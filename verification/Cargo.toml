[package]
name = "spk_solve"
version = "0.1.0"
edition = "2021"
publish = false

[dependencies]
colored = "=3.1.1"
num-bigint = "=0.4.8"
priority-queue = "=2.7.0"
num-format = { version = "=0.4.4", features = ["with-num-bigint"] }
crossterm = "=0.29.0"
signal-hook = "=0.3.18"
statsd = "=0.16.1"
tracing = "=0.1.44"
chrono = "=0.4.45"
serde = { version = "=1.0.229", features = ["derive"] }
thiserror = "=2.0.21"
strum = { version = "=0.28.0", features = ["derive"] }
