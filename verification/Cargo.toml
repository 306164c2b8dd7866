[package]
name = "kitap"
version = "0.1.0"
edition = "2021"
publish = false

[dependencies]
byteorder = "1"
chrono = "0.4"
clap = "2"
fern = "0.5"
futures = "0.1"
hex = "0.4"
itertools = "0.8"
log = "0.4"
sha3 = "0.8"
tokio = "0.1"
