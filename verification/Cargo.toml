[package]
name = "come"
version = "0.1.0"
edition = "2021"
publish = false

[dependencies]
serde = { version = "=1.0.229", features = ["derive"] }
bincode = "=1.3.3"
clap = { version = "=4.6.7", features = ["derive"] }
bitvec = { version = "=1.1.1", features = ["serde"] }
ezio = "=0.1.2"
toml = "0.8"
