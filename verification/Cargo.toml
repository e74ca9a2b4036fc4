[package]
name = "codehealth"
version = "0.1.0"
edition = "2021"
publish = false

[dependencies]
sha2 = "*"
xxhash-rust = { version = "*", features = ["xxh3"] }
globset = "*"
serde = { version = "*", features = ["derive"] }
serde_json = "*"
toml = "*"
anyhow = "*"
thiserror = "*"
clap = { version = "*", features = ["derive"] }
