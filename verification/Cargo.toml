[package]
name = "snisplit"
version = "0.1.0"
edition = "2021"
publish = false

[dependencies]
libc = "0.2"
linux-raw-sys = { version = "*", features = ["net"] }
socket2 = { version = "*", features = ["all"] }
tokio = { version = "1", features = ["rt", "rt-multi-thread", "net", "io-util", "time", "signal"] }

[dev-dependencies]
tls-parser = "*"
