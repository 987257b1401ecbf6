[package]
name = "trv_sync"
version = "0.1.0"
edition = "2021"
publish = false

[dependencies]
anyhow = "=1.0.104"
backoff = "=0.4.0"
chrono = { version = "=0.4.45", features = ["serde"] }
dotenv = "=0.15.0"
erc-nft-metadata = { version = "=0.1.1", features = ["serde"] }
ethers-core = "=1.0.2"
futures = "=0.3.34"
itertools = "=0.10.5"
reqwest = { version = "=0.11.27", default-features = false, features = ["json", "rustls-tls"] }
sea-orm = { version = "=0.11.3", default-features = false, features = ["macros", "with-json", "with-chrono", "sqlx-postgres", "runtime-tokio-rustls"] }
serde = { version = "=1.0.229", features = ["derive"] }
serde-aux = "=4.7.0"
serde_json = "=1.0.154"
tokio = { version = "=1.54.1", features = ["macros", "rt-multi-thread", "time"] }
tracing = "=0.1.44"
tracing-subscriber = "=0.3.23"
