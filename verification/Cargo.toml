[package]
name = "dead-links"
version = "0.1.0"
edition = "2021"
publish = false

[dependencies]
clap = { version = "4", features = ["derive"] }
hex = "0.4"
ignore = "0.4"
markdown = "1.0.0-alpha.1"
memmap2 = "0.9"
miette = { version = "7", features = ["fancy"] }
rayon = "1"
serde = { version = "1", features = ["derive"] }
serde_json = "1"
sha1 = "0.10"
thiserror = "2"
url = "2"
