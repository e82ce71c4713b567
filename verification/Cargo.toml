[package]
name = "session_auth"
version = "0.1.0"
edition = "2021"
publish = false

[dependencies]
jsonwebtoken = "=9.3.1"
nanoid = "=0.5.0"
chrono = "=0.4.45"
email_address = "=0.2.9"
argon2 = "=0.5.3"

[dev-dependencies]
serde_json = "=1.0.151"
