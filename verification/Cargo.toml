[package]
name = "vyos-crowdsec-bouncer"
version = "0.1.0"
edition = "2021"
publish = false

[dependencies]
anyhow = "1"
axum = "0.8"
axum-server = "0.7"
clap = { version = "4", features = ["derive", "env"] }
futures-util = "0.3"
ipnet = "2"
iprange = "0.6"
rand = "0.8"
reqwest = { version = "0.12", default-features = false, features = ["json", "multipart", "rustls-tls"] }
serde = { version = "1", features = ["derive"] }
serde_json = "1"
tokio = { version = "1", features = ["macros", "rt-multi-thread", "time"] }
tracing = "0.1"
