[package]
name = "moot"
version = "0.1.0"
edition = "2021"
publish = false

[dependencies]
sha2 = "0.10"
hex = "0.4"
ed25519-dalek = "2"
x25519-dalek = { version = "2", features = ["static_secrets"] }
chacha20poly1305 = "0.10"
rand = "0.8"
sled = "0.34"
serde = { version = "1", features = ["derive"] }
serde_json = "1"
uuid = { version = "1", features = ["v4"] }
seahash = "4"
chrono = { version = "0.4", features = ["serde"] }
actix-web = { version = "4", default-features = false, features = ["macros"] }
actix-files = "0.6"
actix-multipart = "0.7"
actix-ws = "0.3"
clap = { version = "4", features = ["derive"] }
tokio = { version = "1", features = ["full"] }
futures = "0.3"
tracing-subscriber = "0.3"
