[package]
name = "ape-dts"
version = "0.1.0"
edition = "2021"
publish = false

[dependencies]
anyhow = "1"
async-trait = "0.1"
concurrent-queue = "2"
futures = "0.3"
log = "0.4"
mongodb = "2"
redis = "0.23"
serde = { version = "1", features = ["derive"] }
serde_json = "1"
sqlx = { version = "0.7", default-features = false, features = ["runtime-tokio", "postgres", "mysql"] }
tokio = { version = "1", features = ["rt-multi-thread", "macros", "time", "sync"] }
