[package]
name = "multiraft"
version = "0.1.0"
edition = "2021"
publish = false

[dependencies]
openraft = { version = "=0.10.0-alpha.30", features = ["serde", "runtime-stats"] }
openraft-multi = "=0.10.0-alpha.30"
sha2 = "=0.10.9"
bincode = "=1.3.3"
serde = { version = "=1.0.229", features = ["derive"] }
serde_json = "=1.0.154"
anyhow = "=1.0.104"
clap = { version = "=4.6.7", features = ["derive", "env"] }
futures = "=0.3.34"
reqwest = { version = "=0.12.28", default-features = false }
tokio = { version = "=1.54.1", features = ["full"] }
tracing = "=0.1.44"
