[package]
name = "classy"
version = "0.1.0"
edition = "2021"
publish = false

[dependencies]
pulldown-cmark = "=0.13.4"
pulldown-cmark-to-cmark = "=23.0.0"
mdbook = { version = "=0.4.52", default-features = false }
clap = { version = "=4.6.7", features = ["cargo"] }
serde_json = "=1.0.151"
