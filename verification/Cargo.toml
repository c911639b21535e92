[package]
name = "bsky_thread_and_blog_feed"
version = "0.1.0"
edition = "2021"
publish = false

[dependencies]
regex = "*"
rustrict = "*"
tokio = { version = "*", features = ["full"] }
tokio-rusqlite = "*"
anyhow = "*"
chrono = "*"
dotenv = "*"
log = "*"
