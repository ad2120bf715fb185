[package]
name = "prontafon"
version = "0.1.0"
edition = "2021"
publish = false

[dependencies]
anyhow = "*"
base64 = "*"
bluer = { version = "*", features = ["bluetoothd"] }
chacha20poly1305 = "*"
chrono = "*"
dirs = "*"
enigo = "*"
hmac = "*"
ksni = "*"
rand = "*"
serde = { version = "*", features = ["derive"] }
serde_json = "*"
sha2 = "*"
tokio = { version = "*", features = ["rt-multi-thread", "macros", "sync", "time"] }
tracing = "*"
x25519-dalek = { version = "*", features = ["static_secrets"] }
