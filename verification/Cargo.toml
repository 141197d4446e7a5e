[package]
name = "rfs"
version = "1.0.0"
edition = "2021"
publish = false

[dependencies]
openssl = "0.10"
hex = "0.4"
clap = "2.34"
serde = { version = "1", features = ["derive"] }
serde_derive = "1"
serde_json = "1"

[dev-dependencies]
bincode = "1.3"
