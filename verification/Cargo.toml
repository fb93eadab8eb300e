[package]
name = "voxtral_mini_realtime"
version = "0.1.0"
edition = "2021"
publish = false

[dependencies]
anyhow = "1"
half = "=2.7.1"
nvtx = "=1.3.0"
burn = { version = "=0.20.1", default-features = false }
burn-cubecl = { version = "=0.20.1", default-features = false }
cubecl = { version = "=0.9.0", default-features = false }
clap = { version = "4", features = ["derive"] }
pollster = "0.4"
tracing = "0.1"
tracing-subscriber = { version = "0.3", features = ["env-filter"] }
