[package]
name = "dict_core"
version = "0.1.0"
edition = "2021"
publish = false

[dependencies]
rusqlite = { version = "=0.41.0", features = ["bundled"] }
serde = { version = "=1.0.229", features = ["derive"] }
serde_json = "=1.0.154"
flate2 = "=1.1.10"
thiserror = "=2.0.21"
log = "=0.4.34"
anyhow = "=1.0.104"
clap = { version = "=4.6.7", features = ["derive"] }
indicatif = "=0.18.6"
rust-s3 = "=0.38.0"
tokio = { version = "=1.54.1", features = ["rt-multi-thread", "macros"] }
url = "=2.5.8"
zstd = "=0.14.3"
dotenvy = "=0.15.7"
env_logger = "=0.11.11"
jni = "=0.21.1"
android_logger = "=0.15.1"
