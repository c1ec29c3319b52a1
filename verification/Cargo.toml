[package]
name = "hifitime"
version = "0.1.0"
edition = "2021"
publish = false

[dependencies]
lexical-core = "0.8"
serde = { version = "1", features = ["derive"] }
serde_json = "1"
der = { version = "0.7", features = ["derive", "real"] }
typed-builder = "0.18"
web-time = "1"
tabled = "0.15"
ureq = { version = "2", default-features = false }
snafu = "0.8"
num-traits = "0.2"
regex = "1"
