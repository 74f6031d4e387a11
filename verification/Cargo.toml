[package]
name = "focuskit"
version = "0.1.0"
edition = "2021"
publish = false

[dependencies]
argon2 = "0.5"
jsonwebtoken = "9"
axum = "0.8"
tokio = { version = "1", features = ["macros", "rt-multi-thread", "net"] }
sqlx = { version = "0.8", default-features = false, features = ["runtime-tokio", "postgres", "chrono", "uuid", "macros"] }
serde = { version = "1", features = ["derive"] }
serde_json = "1"
uuid = { version = "1", features = ["serde"] }
chrono = { version = "0.4", features = ["serde"] }
dotenv = "0.15"
