[package]
name = "briefly"
version = "0.1.0"
edition = "2021"
publish = false

[dependencies]
anyhow = "1"
askama = "0.12"
chrono = "=0.4.45"
clap = "4"
derive_more = "0.99"
env_logger = "0.10"
futures = "0.3"
html5gum = "=0.5.7"
http = "0.2"
hyper = { version = "0.14", features = ["client", "http1"] }
hyper-rustls = "0.24"
isahc = "1"
itertools = "=0.10.5"
lazy_static = "1"
log = "0.4"
nom-bibtex = "=0.3.0"
octocrab = "0.25"
pulldown-cmark = "=0.9.6"
serde = { version = "1", features = ["derive"] }
serde_json = "1"
serde_with = "2"
serde_yaml = "0.9"
tokio = { version = "1", features = ["rt-multi-thread"] }
url = "2"
