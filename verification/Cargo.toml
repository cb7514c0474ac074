[package]
name = "quartz"
version = "0.1.0"
edition = "2021"
publish = false

[dependencies]
regex = "1"
md-5 = "0.10"
rand = "0.8"
serde = { version = "1", features = ["derive"] }
serde_json = "1"
log = "0.4"
num-traits = "0.2"
flate2 = "1"
