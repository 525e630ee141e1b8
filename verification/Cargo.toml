[package]
name = "classroom_backend"
version = "0.1.0"
edition = "2021"
publish = false

[dependencies]
axum = { version = "=0.8.9", features = ["multipart"] }
bcrypt = "=0.19.3"
chrono = "=0.4.45"
dotenv = "=0.15.0"
jsonwebtoken = { version = "=11.1.0", features = ["rust_crypto"] }
serde = { version = "=1.0.229", features = ["derive"] }
tokio = { version = "=1.53.2", features = ["macros", "rt-multi-thread", "net"] }
tower-cookies = "=0.11.0"
tower-http = { version = "=0.7.1", features = ["cors"] }
uuid = { version = "=1.27.0", features = ["v4"] }
