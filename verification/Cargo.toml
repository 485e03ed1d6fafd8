[package]
name = "tmux_sessions"
version = "0.1.0"
edition = "2021"
publish = false

[dependencies]
chrono = "=0.4.45"
pop-launcher = "=1.2.7"
tokio = { version = "=1.53.2", features = ["macros", "rt", "io-std", "io-util"] }
futures = "=0.3.34"
log = "=0.4.34"
simplelog = "=0.12.2"
serde_json = "=1.0.151"
