[package]
name = "body_consume"
version = "0.1.0"
edition = "2021"
publish = false

[dependencies]
bytes = "=1.12.1"
cookie = { version = "=0.18.2", features = ["percent-encode"] }
encoding = "=0.2.33"
futures = "=0.1.31"
http = "=1.5.0"
mime = "=0.3.17"
serde = "=1.0.229"
serde_urlencoded = "=0.7.1"
