[package]
name = "yuque_ssg"
version = "0.1.0"
edition = "2021"
publish = false

[dependencies]
actix-files = "=0.6.10"
actix-web = "=4.18.1"
base64 = "=0.21.7"
comrak = { version = "=0.16.0", default-features = false }
env_logger = "=0.10.2"
image = "=0.24.9"
log = "=0.4.34"
pinyin = "=0.9.0"
reqwest = { version = "=0.11.27", default-features = false, features = ["blocking"] }
serde = { version = "=1.0.229", features = ["derive"] }
serde_json = "=1.0.154"
serde_yaml = "=0.9.34"
tokio = { version = "=1.54.1", features = ["full"] }
url = "=2.5.8"
