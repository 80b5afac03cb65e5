[package]
name = "splitledger"
version = "0.1.0"
edition = "2021"
publish = false

[dependencies]
jsonwebtoken = "9"
chrono = { version = "0.4", features = ["serde"] }
serde = { version = "1", features = ["derive"] }
uuid = { version = "1", features = ["v4", "serde"] }
bigdecimal = "0.4"
dotenvy = "0.15"
once_cell = "1"
rocket = { version = "0.5", features = ["json"] }
rocket_cors = "0.6"
sqlx = { version = "0.8", default-features = false, features = ["postgres", "runtime-tokio", "tls-rustls", "chrono", "uuid", "bigdecimal", "macros"] }

[dev-dependencies]
serde_json = "1"
