[package]
name = "notor"
version = "0.1.0"
edition = "2021"
publish = false

[dependencies]
chrono = "=0.4.45"
chrono-tz = "=0.10.4"
chrono-humanize = "=0.2.3"
iana-time-zone = "=0.1.65"
serde = { version = "1", features = ["derive"] }
serde_json = "1"
tokio = { version = "1", features = ["rt-multi-thread", "macros", "time", "sync", "fs"] }
futures = "0.3"
anyhow = "1"
google-calendar = "=0.10.0"
auto-launch = "=0.6.0"
actix-web = { version = "4", default-features = false, features = ["macros"] }
actix-cors = "*"
reqwest = { version = "=0.12.28", features = ["json"] }
oauth2 = "4"
config = { version = "*", default-features = false, features = ["yaml"] }
dotenv = "0.15"
lazy_static = "1"
thiserror = "1"
serde-aux = "*"
