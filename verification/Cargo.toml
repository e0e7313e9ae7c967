[package]
name = "rusty_jenkins"
version = "0.1.0"
edition = "2021"
publish = false

[dependencies]
aes = "=0.8.4"
aes-gcm = "=0.10.3"
anyhow = "=1.0.104"
base64 = "=0.22.1"
cbc = { version = "=0.1.2", features = ["std"] }
clap = { version = "=4.6.7", features = ["derive", "env"] }
colored = "=2.2.0"
pbkdf2 = "=0.12.2"
reqwest = { version = "=0.12.28", default-features = false, features = ["json", "rustls-tls"] }
rusqlite = { version = "=0.31.0", features = ["bundled"] }
serde = { version = "=1.0.229", features = ["derive"] }
serde_json = "=1.0.154"
sha1 = "=0.10.7"
tokio = { version = "=1.54.1", features = ["full"] }
xmltree = { version = "=0.12.0", features = ["attribute-order"] }
