[package]
name = "bolt_proto"
version = "0.1.0"
edition = "2021"
publish = false

[dependencies]
bytes = "*"
tokio = { version = "*", features = ["net", "io-util", "rt"] }
