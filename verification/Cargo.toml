[package]
name = "turbo_effects"
version = "0.1.0"
edition = "2021"
publish = false

[dependencies]
anyhow = "1"
futures = "0.3"
parking_lot = "0.12"
rustc-hash = "2"
thiserror = "2"
tracing = "0.1"
