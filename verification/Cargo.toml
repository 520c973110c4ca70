[package]
name = "delta_search"
version = "0.1.0"
edition = "2021"
publish = false

[dependencies]
anyhow = "1"
git2 = "0.16"
log = "0.4"
serde = { version = "1", features = ["derive"] }
similar = "2.2"
tantivy = "0.19"
