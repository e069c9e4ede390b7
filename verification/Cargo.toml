[package]
name = "jp_estat"
version = "0.1.0"
edition = "2021"
publish = false

[dependencies]
anyhow = "=1.0.104"
clap = { version = "=4.6.7", features = ["derive"] }
csv = "=1.4.0"
encoding_rs = "=0.8.42"
encoding_rs_io = "=0.1.8"
futures = "=0.3.34"
indicatif = "=0.18.6"
jismesh = "=0.1.2"
km-to-sql = "=0.1.1"
mesh-data-tile = "=0.1.1"
ndarray = "0.16"
reqwest = "=0.13.5"
serde = { version = "=1.0.229", features = ["derive"] }
serde_json = "=1.0.154"
tokio = { version = "=1.54.1", features = ["full"] }
tokio-postgres = "=0.7.18"
url = "=2.5.8"
