[package]
name = "temper"
version = "0.1.0"
edition = "2021"
publish = false

[dependencies]
anyhow = "=1.0.104"
blake3 = "=1.8.7"
clap = { version = "=4.6.7", features = ["derive"] }
clap_complete = "=4.6.11"
clap_mangen = "=0.3.3"
console = "=0.16.6"
indicatif = "=0.18.6"
jsonc-parser = { version = "=0.34.0", features = ["serde"] }
serde = { version = "=1.0.229", features = ["derive"] }
serde_json = "=1.0.154"
toml = "=1.1.8"
toml_edit = "=0.25.17"
