[package]
name = "ypbank"
version = "0.1.0"
edition = "2021"
publish = false

[dependencies]
byteorder = "1"
csv = "1"
chrono = "0.4"
rand = "0.8"
crossbeam = "0.8"
uuid = { version = "1", features = ["v4", "serde"] }
serde = { version = "1", features = ["derive"] }
bincode = "1"
clap = { version = "4", features = ["derive"] }
ctrlc = "3"
env_logger = "0.11"
log = "0.4"
