[package]
name = "articles_image_service"
version = "0.1.0"
edition = "2021"
publish = false

[dependencies]
rand = "*"
anyhow = "*"
actix-web = "*"
actix-multipart = "*"
futures-util = "*"
tokio = { version = "*", features = ["rt-multi-thread", "time", "macros"] }
serde = { version = "*", features = ["derive"] }
serde_json = "*"
log = "*"
fern = "*"
chrono = "*"
dotenv = "*"
image = "*"
