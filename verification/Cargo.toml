[package]
name = "rocket"
version = "0.1.0"
edition = "2021"
publish = false

[dependencies]
hyper = { version = "0.14", features = ["server", "http1", "tcp"] }
tokio = { version = "1", features = ["rt-multi-thread", "net", "macros"] }
log = "0.4"
yansi = "0.5"
toml = "0.5"
state = "0.4"
