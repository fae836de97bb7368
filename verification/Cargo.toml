[package]
name = "parse_pdms_db"
version = "0.1.0"
edition = "2021"
publish = false

[dependencies]
anyhow = "=1.0.104"
serde = { version = "=1.0.229", features = ["derive"] }
serde_json = "=1.0.154"
thiserror = "=1.0.69"
clap = { version = "=4.6.7", features = ["derive"] }
config = { version = "=0.13.4", default-features = false, features = ["toml"] }
notify = "=4.0.18"
memchr = "=2.8.3"
hash32 = "0.2"
