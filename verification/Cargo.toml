[package]
name = "griffr-common"
version = "0.1.0"
edition = "2021"
publish = false

[dependencies]
md-5 = "=0.10.6"
flume = "=0.11.1"
futures-util = "=0.3.34"
serde_json = "=1.0.154"
rapidhash = "=4.5.1"
compio = { version = "=0.19.2", features = ["dispatcher", "fs", "io", "time"] }
cyper = { version = "=0.9.0", features = ["stream"] }

[dev-dependencies]
tempfile = "=3.27.0"
