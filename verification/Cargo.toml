[package]
name = "geddes"
version = "0.1.0"
edition = "2021"
publish = false

[dependencies]
quick-xml = "=0.38.4"
zip = { version = "=5.1.1", default-features = false, features = ["deflate"] }
serde = { version = "=1.0.229", features = ["derive"] }
thiserror = "=2.0.21"
