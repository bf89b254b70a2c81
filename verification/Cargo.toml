[package]
name = "cranko"
version = "0.1.0"
edition = "2021"
publish = false

[dependencies]
semver = "=1.0.28"
chrono = "=0.4.45"
petgraph = "=0.6.5"
dynfmt = { version = "=0.1.5", features = ["curly"] }
textwrap = "=0.16.4"
uuid = { version = "=1.29.0", features = ["v4"] }
git2 = { version = "=0.18.3", default-features = false }
toml = "=0.8.23"
toml_edit = "=0.21.1"
serde = { version = "=1.0.229", features = ["derive"] }
anyhow = "=1.0.104"
structopt = "=0.3.26"
log = "=0.4.35"
atomicwrites = "=0.4.4"
quick-xml = "=0.31.0"
configparser = "=3.3.0"
cargo_metadata = "=0.18.1"
lru = "=0.12.5"
ci_info = "=0.14.15"
base64 = "=0.23.1"
rand = "=0.10.3"
git-url-parse = "=0.6.0"
dirs = "=7.0.0"
target-lexicon = "*"
zip = { version = "2", default-features = false, features = ["deflate"] }
tar = "*"
flate2 = "*"
reqwest = { version = "0.12", default-features = false, features = ["blocking", "rustls-tls"] }
json5 = "*"
serde_json = "*"
