[package]
name = "wagi"
version = "0.1.0"
edition = "2021"
publish = false

[dependencies]
anyhow = "*"
async-trait = "*"
bindle = "*"
futures = "*"
sha2 = "*"
tokio = { version = "*", features = ["full"] }
toml = "*"
url = "*"
wasi-common = "*"
