[package]
name = "objstore"
version = "0.1.0"
edition = "2021"
publish = false

[dependencies]
flate2 = "1"
hex = "0.4"
sha1 = "0.10"
anyhow = "1"
clap = { version = "4", features = ["derive"] }
