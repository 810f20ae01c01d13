[package]
name = "pop3_client"
version = "0.1.0"
edition = "2021"
publish = false

[dependencies]
anyhow = "1"
mailparse = "*"
serde = { version = "1", features = ["derive"] }
tokio = { version = "1", features = ["io-util", "net", "rt"] }
tokio-native-tls = "0.3"
