[package]
name = "nextsync"
version = "0.1.0"
edition = "2021"
publish = false

[dependencies]
regex = "1"
rust-crypto = "0.2"
md5 = "0.7"
chrono = "0.4"
xml-rs = "0.8"
clap = "2.34"
colored = "2"
lazy_static = "1"
rpassword = "7"
textwrap = "0.16"
dotenv = "0.15"
futures-util = "0.3"
indicatif = "0.17"
tokio = { version = "1", features = ["rt-multi-thread", "macros"] }
reqwest = { version = "0.11", default-features = false, features = ["rustls-tls", "multipart", "stream"] }
