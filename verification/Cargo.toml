[package]
name = "dozer"
version = "0.1.0"
edition = "2021"
publish = false

[dependencies]
base64 = "=0.13.1"
bincode = "1"
chrono = "=0.4.45"
crossbeam = "=0.8.5"
postgres = { version = "=0.19.14", features = ["with-chrono-0_4"] }
postgres-types = { version = "=0.2.14", features = ["with-chrono-0_4"] }
prettytable-rs = "=0.10.0"
prost = "=0.11.9"
rust_decimal = { version = "=1.43.0", features = ["db-postgres"] }
serde = { version = "=1.0.229", features = ["derive"] }
serde_json = "1"
sqlparser = "=0.27.0"
thiserror = "=1.0.69"
tokio = { version = "=1.54.1", features = ["rt", "time"] }
