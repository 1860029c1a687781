[package]
name = "tmus"
version = "0.1.0"
edition = "2021"
publish = false

[dependencies]
aes-gcm = "*"
anyhow = "1"
async-trait = "0.1"
clap = { version = "4", features = ["derive"] }
directories = "*"
discord-rich-presence = "*"
futures-util = "0.3"
libc = "0.2"
pbkdf2 = { version = "*", features = ["hmac"] }
reqwest = { version = "0.12", default-features = false, features = ["json", "rustls-tls"] }
rusqlite = { version = "*", features = ["bundled"] }
serde = { version = "1", features = ["derive"] }
serde_json = "1"
sha1 = "*"
thiserror = "2"
tokio = { version = "1", features = ["full"] }
toml = "*"
tracing = "0.1"
tracing-subscriber = { version = "0.3", features = ["env-filter"] }
zbus = { version = "5", default-features = false, features = ["tokio"] }

[dev-dependencies]
hex = "0.4"
