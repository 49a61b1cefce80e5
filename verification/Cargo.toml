[package]
name = "cdn_log_ingest"
version = "0.1.0"
edition = "2021"
publish = false

[dependencies]
anyhow = "1"
async-compression = { version = "0.4", features = ["tokio", "gzip", "zstd"] }
chrono = { version = "0.4", default-features = false, features = ["std"] }
diesel = { version = "2.1", features = ["postgres", "chrono", "r2d2"] }
object_store = { version = "0.9", features = ["aws"] }
secrecy = "0.8"
semver = "1"
serde = { version = "1", features = ["derive"] }
tokio = { version = "1", features = ["io-util", "rt"] }
tracing = "0.1"
