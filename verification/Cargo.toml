[package]
name = "dnsserve"
version = "0.1.0"
edition = "2021"
publish = false

[dependencies]
dns-parser = "*"
lru = "*"
governor = "*"
trust-dns-resolver = "*"
tokio = { version = "*", default-features = false, features = ["rt-multi-thread", "net", "io-util", "time", "signal", "sync"] }
rustls = { version = "*", default-features = false, features = ["ring", "logging", "std", "tls12"] }
tokio-rustls = { version = "*", default-features = false, features = ["ring", "logging", "tls12"] }
rustls-pemfile = "*"
