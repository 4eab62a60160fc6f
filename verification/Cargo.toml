[package]
name = "snowflake"
version = "0.1.0"
edition = "2021"
publish = false

[dependencies]
anyhow = "1"
arrow = { version = "55", default-features = false, features = ["ipc"] }
async-compression = { version = "0.4", features = ["tokio", "gzip"] }
async-stream = "0.3"
base64 = "0.22"
bytes = "1"
futures-util = "0.3"
jsonwebtoken = "9"
openssl = "0.10"
reqwest = { version = "0.12", default-features = false, features = ["default-tls", "json", "stream"] }
serde = { version = "1", features = ["derive"] }
serde_json = { version = "1", features = ["preserve_order"] }
tokio = { version = "1", features = ["io-util", "rt", "sync", "time"] }
tokio-util = { version = "0.7", features = ["io"] }
uuid = { version = "1", features = ["v4"] }

[dev-dependencies]
flate2 = "1"
