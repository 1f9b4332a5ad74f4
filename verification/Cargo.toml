[package]
name = "sendme"
version = "0.1.0"
edition = "2021"
publish = false

[dependencies]
bytesize = "*"
iroh = { version = "*", default-features = false }
iroh-blobs = { version = "*", default-features = false, features = ["fs-store"] }
rand = "0.9"
tokio = { version = "*", default-features = false, features = ["rt", "rt-multi-thread", "time", "fs", "sync"] }
