[package]
name = "kevindb"
version = "0.1.0"
edition = "2021"
publish = false

[dependencies]
serde_json = "=1.0.154"
chrono = "=0.4.45"
uuid = { version = "=1.29.0", features = ["v5"] }
hex = "=0.4.3"
anyhow = "1"
arrow-array = { version = "58", default-features = false }
bytes = "1"
datafusion = { version = "53", default-features = false, features = ["sql"] }
futures-util = "0.3"
async-trait = "0.1"
object_store = "0.13"
opentelemetry-proto = { version = "=0.33.1", features = ["gen-tonic-messages", "trace"] }
refinery = { version = "=0.10.0", features = ["tokio-postgres"] }
tokio = { version = "1", features = ["rt", "sync", "time", "macros"] }
tokio-postgres = "0.7"
tracing = "0.1"
url = "2"
