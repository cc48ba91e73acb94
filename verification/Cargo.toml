[package]
name = "git-productivity-analyzer"
version = "0.1.0"
edition = "2021"
publish = false

[dependencies]
anyhow = "1"
bytecount = "0.6"
chrono = "0.4"
clap = { version = "4", features = ["derive"] }
env_logger = "0.11"
gitoxide-core = { version = "*", features = ["estimate-hours"] }
gix = "*"
gix-hash = "*"
glob = "0.3"
log = "0.4"
miette = "7"
serde = { version = "1", features = ["derive"] }
serde_json = "1"
thiserror = "1"
tokio = { version = "1", features = ["rt-multi-thread", "macros"] }
