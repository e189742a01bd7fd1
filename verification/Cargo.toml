[package]
name = "bwenv"
version = "1.0.0"
edition = "2021"
publish = false

[dependencies]
atty = "=0.2.14"
clap = { version = "=4.6.7", features = ["derive", "env"] }
dirs = "=7.0.0"
inquire = "=0.9.4"
reqwest = { version = "=0.12.28", default-features = false, features = ["json", "rustls-tls"] }
semver = "=1.0.28"
serde = { version = "=1.0.229", features = ["derive"] }
serde_yaml = "=0.9.34"
tabular = "=0.2.0"
tokio = { version = "=1.53.2", features = ["rt", "macros"] }
tokio-retry = "=0.3.2"
toml = "=1.1.7"
tracing = "=0.1.44"
tracing-subscriber = { version = "=0.3.23", features = ["env-filter", "fmt"] }
uuid = "=1.27.0"
