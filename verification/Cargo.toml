[package]
name = "mdbook_merjong"
version = "0.1.0"
edition = "2021"
publish = false

[dependencies]
pulldown-cmark = "=0.13.4"
mdbook = { version = "=0.4.52", default-features = false }
anyhow = "=1.0.104"
clap = { version = "=4.6.7", features = ["derive"] }
env_logger = "=0.11.11"
log = "=0.4.34"
serde_json = "=1.0.151"
toml_edit = "=0.25.16"
