[package]
name = "turso_mysql"
version = "0.1.0"
edition = "2021"
publish = false

[dependencies]
anyhow = "1"
clap = { version = "4", features = ["derive"] }
mysql = { version = "26", default-features = false, features = ["minimal-rust"] }
parking_lot = "0.12"
serde = { version = "1", features = ["derive"] }
smallvec = "1"
thiserror = "1"
tokio = { version = "1", features = ["macros", "net", "rt-multi-thread"] }
tracing = "0.1"
tracing-subscriber = { version = "0.3", features = ["env-filter", "fmt"] }
