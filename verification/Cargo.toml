[package]
name = "proto_reconcile"
version = "0.1.0"
edition = "2021"
publish = false

[dependencies]
clap = "4"
mlua = { version = "0.10", features = ["lua54", "vendored"] }
protobuf = "3"
protobuf-parse = "3"
reqwest = { version = "0.12", default-features = false, features = ["json", "rustls-tls"] }
serde = { version = "1", features = ["derive"] }
serde_json = "1"
tokio = { version = "1", features = ["full"] }
urlencoding = "2"
