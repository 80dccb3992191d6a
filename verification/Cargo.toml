[package]
name = "ddd-rs"
version = "0.1.0"
edition = "2021"
publish = false

[dependencies]
async-trait = "0.1"
axum = { version = "*", default-features = false, features = ["json"] }
axum-core = "*"
chrono = { version = "0.4", default-features = false, features = ["std"] }
http = "1"
serde = { version = "1", features = ["derive"] }
thiserror = "*"
uuid = "1"
