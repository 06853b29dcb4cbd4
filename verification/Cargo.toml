[package]
name = "ullam"
version = "0.1.0"
edition = "2021"
publish = false

[dependencies]
ardupilot-binlog = "=0.2.0"
serde = { version = "=1.0.229", features = ["derive"] }
serde_json = "=1.0.154"
thiserror = "=2.0.21"
anyhow = "=1.0.104"
clap = { version = "=4.6.7", features = ["derive"] }
tracing = "=0.1.44"
tracing-subscriber = { version = "=0.3.23", features = ["env-filter"] }
tokio = { version = "=1.54.1", features = ["full"] }
reqwest = { version = "=0.13.5", features = ["json", "stream"] }
async-openai = { version = "=0.43.0", features = ["chat-completion", "model"] }
hf-hub = "=1.0.0"
schemars = "=1.2.3"
dirs = "=6.0.0"
url = { version = "=2.5.8", features = ["serde"] }
flate2 = "=1.1.10"
tar = "=0.4.46"
futures-util = "=0.3.34"
zip = { version = "=9.2.2", default-features = false, features = ["deflate-flate2"] }
