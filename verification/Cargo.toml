[package]
name = "load_test"
version = "0.1.0"
edition = "2021"
publish = false

[dependencies]
serde_json = "=1.0.151"
base64 = "=0.23.1"
url = "=2.5.8"
rand = "=0.10.3"
chrono = "=0.4.45"
uuid = { version = "=1.27.0", features = ["v4"] }
reqwest = { version = "=0.13.5", default-features = false, features = ["json", "form"] }
tokio = { version = "=1.53.2", features = ["rt-multi-thread", "macros", "time", "sync"] }
futures = "=0.3.34"
clap = { version = "=4.6.7", features = ["derive"] }
serde = { version = "=1.0.229", features = ["derive"] }
