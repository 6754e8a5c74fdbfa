[package]
name = "arkin"
version = "0.1.0"
edition = "2021"
publish = false

[dependencies]
serde = { version = "*", features = ["derive"] }
serde_json = "*"
rust_decimal = "*"
time = "*"
rayon = "*"
flume = "*"
parking_lot = "*"
