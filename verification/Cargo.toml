[package]
name = "car_cli"
version = "0.1.0"
edition = "2021"
publish = false

[dependencies]
rand = "=0.8.8"
chrono = "=0.4.45"
crossterm = "=0.25.0"
tui = "=0.19.0"

[dev-dependencies]
serde_json = "1"
