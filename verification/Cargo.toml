[package]
name = "gateway"
version = "0.1.0"
edition = "2021"
publish = false

[dependencies]
axum = "=0.8.9"
figment = { version = "=0.10.19", features = ["toml", "env"] }
jsonschema = { version = "=0.17.1", default-features = false }
serde = { version = "=1.0.229", features = ["derive"] }
serde_json = "=1.0.151"
sha2 = "=0.11.0"
sqlx = { version = "=0.9.0", default-features = false, features = ["sqlite", "runtime-tokio"] }
tokio = { version = "=1.53.2", features = ["rt-multi-thread", "macros", "sync", "net", "time", "fs"] }
url = "=2.5.8"
wasmparser = "=0.261.0"
