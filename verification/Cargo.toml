[package]
name = "proxynexus-core"
version = "0.1.0"
edition = "2021"
publish = false

[dependencies]
csv = "1"
serde = { version = "1", features = ["derive"] }
serde_json = "1"
toml = "*"
zip = { version = "2", default-features = false, features = ["deflate"] }
tempfile = "3"
chrono = "0.4"
clap = { version = "4", features = ["derive"] }
dirs = "*"
rusqlite = { version = "*", features = ["bundled"] }
reqwest = { version = "0.12", default-features = false, features = ["blocking", "json", "rustls-tls"] }
tokio = { version = "1", features = ["rt-multi-thread", "macros", "time"] }
tracing = "0.1"
image = { version = "0.25", default-features = false, features = ["png", "jpeg"] }
krilla = "*"
