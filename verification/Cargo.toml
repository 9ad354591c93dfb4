[package]
name = "actionbook"
version = "0.1.0"
edition = "2021"
publish = false

[dependencies]
reqwest = { version = "=0.13.5", default-features = false, features = ["rustls-no-provider"] }
rustls = { version = "0.23", default-features = false, features = ["ring", "std", "tls12"] }
serde_json = { version = "=1.0.154", features = ["float_roundtrip"] }
dirs = "=7.0.0"
tokio = { version = "=1.54.1", features = ["rt"] }
