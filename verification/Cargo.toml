[package]
name = "yapf"
version = "0.1.0"
edition = "2021"
publish = false

[dependencies]
http = "1"
num-integer = "0.1"
rand = "0.8"
rand_distr = "0.4"
tokio = { version = "1", features = ["rt", "time", "sync", "macros"] }
reqwest = { version = "0.12", default-features = false }
hyper = { version = "1", features = ["http1", "server", "client"] }
hyper-util = { version = "0.1", features = ["client", "client-legacy", "http1", "tokio", "server"] }
http-body-util = "0.1"
async-trait = "0.1"
