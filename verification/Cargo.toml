[package]
name = "pullup"
version = "0.1.0"
edition = "2021"
publish = false

[dependencies]
pulldown-cmark = { version = "0.9", default-features = false }
mdbook = { version = "0.4", default-features = false }
