[package]
name = "note4keep"
version = "0.1.0"
edition = "2021"
publish = false

[dependencies]
bcrypt = "0.15"
jsonwebtoken = "9"
rand = "0.8"
serde = { version = "1", features = ["derive"] }
serde_json = "1"
axum = "0.7"
axum-macros = "0.4"
tokio = { version = "1", features = ["macros", "rt-multi-thread", "net"] }
mongodb = "2"
bson = { version = "2", features = ["chrono-0_4"] }
chrono = "0.4"
dotenv = "0.15"
futures = "0.3"
tower = { version = "0.4", features = ["timeout", "util"] }
tower-http = { version = "0.5", features = ["cors"] }
hyper = "1"
