[package]
name = "backtest"
version = "0.1.0"
edition = "2021"
publish = false

[dependencies]
chrono = "*"
chrono-tz = "*"
rust_decimal = "*"
serde = { version = "*", features = ["derive"] }
serde_json = "*"
