[package]
name = "secure_send"
version = "0.1.0"
edition = "2021"
publish = false

[dependencies]
aes-gcm = "0.10"
anyhow = "1"
base64 = "0.22"
bytes = "1"
getrandom = "0.2"
hkdf = "0.12"
log = "0.4"
nostr-sdk = "0.44"
p256 = { version = "0.13", features = ["ecdh"] }
pbkdf2 = "0.12"
ratatui = "0.29"
rustyline = "15"
serde = { version = "1", features = ["derive"] }
serde_json = "1"
sha2 = "0.10"
tokio = { version = "1", features = ["full"] }
webrtc = "0.12"
