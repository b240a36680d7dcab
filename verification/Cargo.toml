[package]
name = "sparkx"
version = "0.1.0"
edition = "2021"
publish = false

[dependencies]
arrow = { version = "=60.1.0", default-features = false, features = ["csv", "ipc", "prettyprint"] }
arrow-flight = "=60.1.0"
clap = { version = "=4.6.7", features = ["derive"] }
crc32fast = "=1.5.4"
fs2 = "=0.4.3"
futures = "=0.3.34"
num_cpus = "=1.17.0"
parking_lot = "=0.12.5"
parquet = { version = "=60.1.0", default-features = false, features = ["arrow", "snap"] }
prost = "=0.14.4"
serde = { version = "=1.0.229", features = ["derive"] }
serde_json = "=1.0.154"
sqlparser = { version = "=0.63.0", features = ["serde"] }
thiserror = "=2.0.21"
tokio = { version = "=1.54.1", features = ["full"] }
tokio-stream = { version = "=0.1.19", features = ["net"] }
tonic = "=0.14.9"
