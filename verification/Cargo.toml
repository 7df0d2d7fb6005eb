[package]
name = "search_indexing"
version = "0.1.0"
edition = "2021"
publish = false

[dependencies]
spdx = "0.10"
serde_json = "1"
futures = "0.3"
log = "0.4"
sqlx = { version = "0.7", default-features = false, features = ["postgres", "runtime-tokio"] }
