[package]
name = "couber"
version = "0.1.0"
edition = "2021"
publish = false

[dependencies]
urlencoding = "=2.1.3"
sha2 = "=0.10.9"
hex = "=0.4.3"
base64 = "=0.22.1"
serde_json = "=1.0.154"
serde = { version = "=1.0.229", features = ["derive"] }
serde_with = { version = "3", default-features = false, features = ["macros", "json", "std"] }
eyre = "=0.6.14"
axum = "=0.8.9"
tokio = { version = "=1.54.1", features = ["macros", "rt-multi-thread", "net"] }
sqlx = { version = "=0.8.6", default-features = false, features = ["sqlite", "runtime-tokio"] }
reqwest = { version = "=0.12.28", default-features = false, features = ["json", "rustls-tls", "gzip", "zstd"] }
maud = { version = "=0.27.0", features = ["axum"] }
clap = { version = "=4.6.7", features = ["derive", "env"] }
tower-http = { version = "=0.6.11", features = ["fs"] }
fs_extra = "=1.3.0"
env_logger = "=0.11.11"
log = "=0.4.35"
tracing = "=0.1.44"
