[package]
name = "polaris_vbios"
version = "0.1.0"
edition = "2021"
publish = false

[dependencies]
strip-ansi-escapes = "0.2"
clap = { version = "4", features = ["derive"] }
clap_complete = "4"
clap_mangen = "0.2"
serde = { version = "1", features = ["derive"] }
serde_json = "1"
base64 = "0.22"
anyhow = "1"
csv = "1"
