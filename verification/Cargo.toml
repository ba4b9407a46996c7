[package]
name = "heartbeat"
version = "0.2.0"
edition = "2021"
publish = false

[dependencies]
actix-web = { version = "=4.18.1", default-features = false, features = ["macros", "cookies"] }
argon2 = "=0.5.3"
dotenvy = "=0.15.7"
getrandom = "=0.4.3"
reqwest = { version = "=0.13.5", features = ["json", "query"] }
rust-embed = { version = "=8.13.0", features = ["mime-guess"] }
serde = { version = "=1.0.229", features = ["derive"] }
serde_json = "=1.0.154"
tera = "=2.4.0"
thiserror = "=2.0.21"
tokio = { version = "=1.54.1", features = ["macros", "rt-multi-thread", "fs", "net", "sync", "time", "io-util"] }
tracing = "=0.1.44"
tracing-subscriber = { version = "=0.3.23", features = ["env-filter"] }
url = "=2.5.8"
x509-parser = "=0.18.1"
