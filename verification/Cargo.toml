[package]
name = "shadow"
version = "0.1.0"
edition = "2021"
publish = false

[dependencies]
sha2 = "0.10"
mime = "0.3"
mime_guess = "2"
infer = "*"
uuid = { version = "1", features = ["v4"] }
ignore = "0.4"
toml = "0.8"
serde = { version = "1", features = ["derive"] }
serde_json = "1"
clap = { version = "4", features = ["derive"] }
tokio = { version = "1", features = ["macros", "rt-multi-thread", "fs", "time", "io-util"] }
anyhow = "1"
thiserror = "*"
async-trait = "0.1"
futures-core = "0.3"
ve-tos-rust-sdk = { version = "2.9", default-features = false, features = ["asynchronous", "tokio-runtime", "use-rustls"] }
