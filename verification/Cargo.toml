[package]
name = "client_tunnel"
version = "0.1.0"
edition = "2021"
publish = false

[dependencies]
domain = "=0.9.3"
bimap = "=0.6.3"
ip_network = "=0.4.1"
ip_network_table = "=0.2.0"
pnet_packet = "=0.34.0"
itertools = "=0.12.1"
hickory-resolver = { version = "=0.24.4", default-features = false }
tokio = { version = "=1.54.1", features = ["fs", "rt", "time", "io-util"] }
reqwest = { version = "=0.11.27", default-features = false, features = ["stream"] }
async-compression = { version = "=0.4.51", features = ["tokio", "gzip"] }
tokio-util = { version = "=0.7.20", features = ["codec"] }
url = "=2.5.8"
futures-util = "=0.3.34"
tracing = "=0.1.44"
uuid = "1"
