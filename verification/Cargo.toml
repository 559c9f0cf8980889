[package]
name = "grit"
version = "0.1.0"
edition = "2021"
publish = false

[dependencies]
anyhow = "1"
clap = { version = "4", features = ["derive"] }
flate2 = "1"
hex = "0.4"
libc = "0.2"
sha1 = "0.10"
uuid = { version = "1", features = ["v4"] }
