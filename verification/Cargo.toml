[package]
name = "article_board"
version = "0.1.0"
edition = "2021"
publish = false

[dependencies]
sanitize-filename = "*"
chrono = "*"
actix-web = "*"
actix-files = "*"
actix-multipart = "*"
futures-util = "*"
serde = { version = "*", features = ["derive"] }
env_logger = "*"
