[package]
name = "reo"
version = "0.0.0"
edition = "2021"
publish = false

[dependencies]
anyhow = "1"
bincode = "1"
clap = { version = "3", features = ["cargo"] }
colored = "2"
glob = "0.3"
hex = "0.4"
itertools = "0.10"
log = "0.4"
regex = "1"
serde = { version = "1", features = ["derive"] }
simple_logger = "4"
sodg = "*"
xml-builder = "0.5"

[dev-dependencies]
rand = "0.8"
tempfile = "3"
