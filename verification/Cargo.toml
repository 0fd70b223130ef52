[package]
name = "chum_bucket_lab"
version = "0.1.0"
edition = "2021"
publish = false

[dependencies]
sha1 = "0.10"
serde = { version = "1", features = ["derive"] }
toml = "*"
reqwest = { version = "*", default-features = false, features = ["blocking", "rustls-tls"] }
