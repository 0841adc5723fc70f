[package]
name = "kiki"
version = "0.1.0"
edition = "2021"
publish = false

[dependencies]
argon2 = "0.5"
base64 = "0.22"
bip39 = { version = "2", features = ["rand"] }
chacha20poly1305 = "0.10"
hex = "0.4"
rand = "0.8"
regex = "1"
semver = "1"
serde = { version = "1", features = ["derive"] }
serde_json = "1"
subtle = "2"
url = "2"
zeroize = "1"
anyhow = "1"
async-trait = "0.1"
clap = { version = "4", features = ["derive", "env"] }
futures = "0.3"
reqwest = { version = "0.12", default-features = false, features = ["json"] }
tar = "0.4"
thiserror = "1"
tokio = { version = "1", features = ["full"] }
tokio-tungstenite = "0.24"
toml = "0.8"
tracing = "0.1"
zstd = "0.13"
