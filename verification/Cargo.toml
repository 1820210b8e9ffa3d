[package]
name = "profile_svg"
version = "0.1.0"
edition = "2021"
publish = false

[dependencies]
anyhow = "=1.0.104"
base64 = "=0.22.1"
chromiumoxide = { version = "=0.7.0", default-features = false, features = ["tokio-runtime", "bytes"] }
chrono = "=0.4.45"
futures = "=0.3.34"
serde = { version = "=1.0.229", features = ["derive"] }
serde_json = "=1.0.154"
tokio = { version = "=1.54.1", features = ["macros", "rt-multi-thread", "time"] }
ureq = { version = "=2.12.1", features = ["json"] }
