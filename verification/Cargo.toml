[package]
name = "buzz"
version = "0.1.0"
edition = "2021"
publish = false

[dependencies]
anyhow = "=1.0.104"
askama_escape = "=0.10.3"
chrono = "=0.4.45"
directories-next = "=2.0.0"
imap = { version = "=3.0.0-alpha.15", default-features = false, features = ["rustls-tls"] }
imap-proto = "=0.16.7"
mailparse = "=0.18.0"
notify-rust = "=4.18.2"
rayon = "=1.12.0"
serde = { version = "=1.0.229", features = ["derive"] }
toml = "=1.1.8"
tray-item = { version = "=0.10.0", features = ["ksni"] }
