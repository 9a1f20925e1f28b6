[package]
name = "rewrk"
version = "0.1.0"
edition = "2021"
publish = false

[dependencies]
anyhow = "=1.0.104"
clap = "=2.34.0"
colored = "=2.2.0"
futures-util = "=0.3.34"
http = "=0.2.12"
humansize = "=2.1.3"
humantime = "=2.4.0"
hyper = { version = "=0.14.32", features = ["full"] }
native-tls = { version = "=0.2.18", features = ["alpn"] }
tokio = { version = "=1.53.2", features = ["rt-multi-thread", "net", "time", "io-util", "sync", "macros"] }
tokio-native-tls = "=0.3.1"
tower = { version = "=0.4.13", features = ["util"] }
