[package]
name = "adts"
version = "0.1.0"
edition = "2021"
publish = false

[dependencies]
futures-util = { version = "0.3", features = ["io"] }
log = "0.4"
symphonia-core = "*"
