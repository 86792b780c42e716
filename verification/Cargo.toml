[package]
name = "newsletter"
version = "0.1.0"
edition = "2021"
publish = false

[dependencies]
validator = "0.16"
uuid = { version = "1", features = ["v4"] }
actix-web = { version = "4", default-features = false }
serde = { version = "1", features = ["derive"] }
