[package]
name = "reflector"
version = "0.1.0"
edition = "2021"
publish = false

[dependencies]
axum = "0.8"
bytes = "1"
flate2 = "1"
httpdate = "1"
regex = "1"
reqwest = { version = "0.12", default-features = false, features = ["rustls-tls", "gzip", "deflate"] }
serde = { version = "1", features = ["derive"] }
sha2 = "0.10"
tokio = { version = "1", features = ["full"] }
tower-http = { version = "0.6", features = ["cors"] }
tracing = "0.1"
tracing-subscriber = "0.3"
