[package]
name = "labt"
version = "0.1.0"
edition = "2021"
publish = false

[dependencies]
version-compare = "=0.1.1"
toml_edit = "=0.21.1"
quick-xml = "=0.31.0"
anyhow = "=1.0.104"
fuzzy-matcher = "=0.3.7"
regex = "=1.13.1"
clap = { version = "=4.6.7", features = ["derive"] }
serde = { version = "=1.0.229", features = ["derive"] }
toml = "=0.8.23"
log = "=0.4.35"
env_logger = "=0.11.11"
sha1 = "=0.10.7"
zip = { version = "=0.6.6", default-features = false, features = ["deflate"] }
reqwest = { version = "=0.11.27", default-features = false, features = ["blocking", "rustls-tls"] }
git2 = { version = "=0.18.3", default-features = false }
mlua = { version = "=0.9.9", features = ["lua54", "vendored"] }
glob = "0.3"
