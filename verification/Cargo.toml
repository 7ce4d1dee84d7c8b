[package]
name = "omni_runs"
version = "0.1.0"
edition = "2021"
publish = false

[dependencies]
serde_json = "1"
serde = { version = "1", features = ["derive"] }
chrono = "0.4"
tokio = { version = "1", features = ["fs", "rt", "macros"] }
sqlx = { version = "0.8", default-features = false, features = ["sqlite", "runtime-tokio", "derive", "macros"] }
