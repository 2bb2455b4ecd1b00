[package]
name = "blog_backend"
version = "0.1.0"
edition = "2021"
publish = false

[dependencies]
argon2 = "=0.5.3"
password-hash = { version = "=0.5.0", features = ["getrandom"] }
jsonwebtoken = "=9.3.1"
serde = { version = "=1.0.229", features = ["derive"] }
serde_json = "=1.0.151"
axum = "=0.7.9"
tokio = { version = "=1.53.2", features = ["rt-multi-thread", "macros", "net"] }
