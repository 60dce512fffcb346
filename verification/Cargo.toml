[package]
name = "latency_probe"
version = "0.1.0"
edition = "2021"
publish = false

[dependencies]
byteorder = "1"
chrono = { version = "0.4", default-features = false, features = ["std"] }
dotenvy = "0.15"
libc = "0.2"
pnet = "*"
tokio = { version = "1", features = ["full"] }
warp = "0.3"
