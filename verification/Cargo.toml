[package]
name = "html_parse"
version = "0.1.0"
edition = "2021"
publish = false

[dependencies]
anyhow = "1"
async-std = { version = "1", features = ["attributes"] }
clap = "2"
futures = "0.3"
pulldown-cmark = { version = "0.8", default-features = false }
url = "2"

[dev-dependencies]
nom = { version = "5", default-features = false, features = ["std"] }
