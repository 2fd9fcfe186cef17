[package]
name = "mdbook_tera"
version = "0.1.0"
edition = "2021"
publish = false

[dependencies]
anyhow = "=1.0.104"
clap = { version = "=4.6.7", features = ["derive"] }
globwalk = "=0.9.1"
mdbook = { version = "=0.4.52", default-features = false }
semver = "=1.0.28"
serde_json = "=1.0.151"
tera = "=1.20.1"
toml = "=0.8.23"
