[package]
name = "clob"
version = "0.1.0"
edition = "2021"
publish = false

[dependencies]
axum = "*"
rand = "*"
serde = { version = "*", features = ["derive"] }
tokio = { version = "*", features = ["full"] }
tower-http = { version = "*", features = ["cors"] }
