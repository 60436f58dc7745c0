[package]
name = "subresolver"
version = "0.1.0"
edition = "2021"
publish = false

[dependencies]
select = "=0.6.1"
serde_json = "=1.0.151"
reqwest = { version = "=0.13.5", default-features = false, features = ["multipart", "stream"] }
tokio = { version = "=1.53.2", features = ["macros", "rt-multi-thread", "time"] }
anyhow = "=1.0.104"
