[package]
name = "pastecore"
version = "0.1.0"
edition = "2021"
publish = false

[dependencies]
axum = { version = "0.5", features = ["multipart", "headers"] }
chrono = "0.4"
dashmap = "5"
parking_lot = "0.12"
random-string = "*"
serde = { version = "1", features = ["derive"] }
sqlx = { version = "0.8", features = ["runtime-tokio", "postgres", "chrono"] }
tera = "1"
tokio = { version = "1", features = ["macros", "rt-multi-thread", "time", "net"] }
toml = "*"
tracing = "0.1"
tracing-subscriber = { version = "0.3", features = ["env-filter"] }
