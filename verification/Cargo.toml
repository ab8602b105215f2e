[package]
name = "librespot_ogg"
version = "0.1.0"
edition = "2021"
publish = false

[dependencies]
byteorder = "1"
num-traits = "0.2"
tokio = { version = "1", features = ["fs", "io-util", "macros", "rt-multi-thread"] }
clap = { version = "3", features = ["derive"] }
rand = "0.8"
