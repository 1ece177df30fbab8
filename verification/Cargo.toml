[package]
name = "waggle"
version = "0.1.0"
edition = "2021"
publish = false

[dependencies]
async-channel = "2"
asynchronous-codec = "0.7"
bytes = "1"
futures = "0.3"
libp2p = { version = "0.56", default-features = false }
lru = "*"
prost = "*"
prost-codec = "*"
rand = "0.9"
thiserror = "2"
tracing = "0.1"
