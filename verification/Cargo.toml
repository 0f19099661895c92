[package]
name = "koperasi"
version = "0.1.0"
edition = "2021"
publish = false

[dependencies]
serde = { version = "=1.0.229", features = ["derive"] }
serde_json = "=1.0.154"
sqlx = { version = "=0.8.6", default-features = false, features = ["runtime-tokio", "sqlite"] }
calamine = { version = "=0.26.1", features = ["dates"] }
# Held at the version that calamine 0.26.1 builds against.
zip = { version = "=2.2.3", default-features = false, features = ["deflate"] }
# calamine gives date cells as chrono values; formatting them needs `alloc`.
chrono = { version = "=0.4.45", default-features = false, features = ["alloc"] }
# The runtime that sqlx runs on, which the desktop shell gave the original.
tokio = { version = "=1.54.1", features = ["rt"] }
