[package]
name = "rinha_api"
version = "0.1.0"
edition = "2021"
publish = false

[dependencies]
deadpool-postgres = "*"
http-body-util = "*"
hyper = { version = "1", features = ["server", "http1"] }
hyper-util = { version = "*", features = ["tokio"] }
serde = { version = "1", features = ["derive"] }
serde_json = "1"
tokio = { version = "1", features = ["rt-multi-thread", "macros", "net"] }
tokio-postgres = { version = "0.7", features = ["with-uuid-1"] }
uuid = { version = "1", features = ["v7", "serde"] }
