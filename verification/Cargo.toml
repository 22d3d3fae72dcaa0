[package]
name = "syd"
version = "0.1.0"
edition = "2021"
publish = false

[dependencies]
serde = { version = "1", features = ["derive"] }
serde_json = "=1.0.151"
tokio = { version = "1", features = ["macros", "rt-multi-thread", "process", "io-util", "sync", "time"] }
zbus = { version = "=4.4.0", default-features = false, features = ["tokio"] }
zvariant = "4"
futures = "0.3"
async-stream = "0.3"
