[package]
name = "solar_sonar"
version = "0.1.0"
edition = "2021"
publish = false

[dependencies]
chrono = "0.4"
xxhash-rust = { version = "0.8", features = ["xxh3"] }
rand = "*"
heck = "0.5"
clap = { version = "4", features = ["derive"] }
serde = { version = "1", features = ["derive"] }
toml = "*"
shellexpand = { version = "3", features = ["path"] }
encoding_rs = "0.8"
encoding_rs_io = "0.1"
directories = "*"
