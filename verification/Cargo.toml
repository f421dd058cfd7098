[package]
name = "tppss"
version = "0.1.0"
edition = "2021"
publish = false

[dependencies]
anyhow = "1"
async-tiff = "*"
chrono = "0.4"
chrono-tz = "*"
clap = { version = "4", features = ["derive"] }
epsg-utils = "*"
iana-time-zone = "*"
ndarray = "*"
object_store = "*"
serde = { version = "1", features = ["derive"] }
serde_json = "1"
thiserror = "*"
tokio = { version = "1", features = ["macros", "rt-multi-thread"] }
tracing-subscriber = { version = "0.3", features = ["env-filter"] }
url = "2"
