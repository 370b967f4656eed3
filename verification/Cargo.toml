[package]
name = "aliyun_oss_client"
version = "0.1.0"
edition = "2021"
publish = false

[dependencies]
base64 = "*"
chrono = "0.4"
dotenv = "*"
futures = "0.3"
hmac = "0.12"
reqwest = { version = "*", default-features = false }
serde = { version = "1", features = ["derive"] }
serde-xml-rs = "*"
sha1 = "0.10"
tokio = { version = "1", features = ["rt", "macros"] }
