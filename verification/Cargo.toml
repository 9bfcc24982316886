[package]
name = "cgarena"
version = "0.1.0"
edition = "2021"
publish = false

[dependencies]
anyhow = "*"
axum = "*"
chrono = { version = "*", features = ["serde"] }
clap = { version = "*", features = ["derive"] }
colored = "*"
indoc = "*"
itertools = "*"
serde = { version = "*", features = ["derive"] }
skillratings = "*"
sqlx = { version = "*", default-features = false, features = ["sqlite", "runtime-tokio", "chrono", "macros"] }
thiserror = "*"
tokio = { version = "*", features = ["macros", "rt-multi-thread", "process", "time", "sync"] }
toml = "*"
tower-http = { version = "*", features = ["cors", "trace"] }
tracing = "*"
tracing-subscriber = "*"
validator = { version = "*", features = ["derive"] }
