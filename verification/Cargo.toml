[package]
name = "crl"
version = "0.1.0"
edition = "2021"
publish = false

[dependencies]
arboard = { version = "3", default-features = false }
arw_brr = "*"
daemonize = "0.4"
dirs = "*"
rand = "0.8"
rusqlite = { version = "*", features = ["bundled"] }
tokio = { version = "1", features = ["rt", "time"] }
