[package]
name = "easytier"
version = "0.1.0"
edition = "2021"
publish = false

[dependencies]
anyhow = "=1.0.104"
cidr = "=0.2.3"
dashmap = "6"
hickory-resolver = "=0.25.2"
hmac = "=0.12.1"
pnet = "=0.35.0"
prost = "=0.13.5"
rand = "=0.8.8"
sha2 = "=0.10.9"
socket2 = { version = "=0.5.10", features = ["all"] }
timedmap = "=1.0.2"
tokio = { version = "=1.54.1", features = ["net", "time", "rt", "io-util", "process", "sync", "macros"] }
url = "=2.5.8"
wildmatch = "=2.7.0"
