[package]
name = "apexforge"
version = "0.1.0"
edition = "2021"
publish = false

[dependencies]
num-bigint = "0.4"
num-traits = "0.2"
num-integer = "0.1"
num-rational = "0.4"
num-complex = "0.4"
rust_decimal = "1"
uuid = { version = "1", features = ["v4"] }
chrono = "0.4"
serde = { version = "1", features = ["derive"] }
serde_json = "1"
serde_yaml = "0.9"
clap = { version = "4", features = ["derive"] }
once_cell = "1"
libc = "0.2"
