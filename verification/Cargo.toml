[package]
name = "met_core"
version = "0.1.0"
edition = "2021"
publish = false

[dependencies]
gpiod = { version = "*", default-features = false }
md-5 = "0.10"
serde = { version = "1", features = ["derive"] }
serde_json = "1"
thiserror = "*"
tokio = { version = "1", features = ["fs", "io-std", "io-util", "macros", "net", "rt-multi-thread", "sync", "time"] }
tokio-serial = { version = "5", default-features = false }
tracing = "0.1"
tracing-subscriber = { version = "0.3", features = ["env-filter"] }
