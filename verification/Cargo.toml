[package]
name = "gatetrader"
version = "0.1.0"
edition = "2021"
publish = false

[dependencies]
anyhow = "1"
async-channel = "1.6"
async-io = "1"
async-std = { version = "1.9", features = ["attributes"] }
async-tungstenite = { version = "0.13", features = ["async-std-runtime", "async-tls"] }
crossterm = { version = "0.19", features = ["event-stream"] }
dotenv = "0.15"
futures-util = { version = "0.3", features = ["sink"] }
hex = "0.4"
hmac = "0.12"
rust_decimal = "1"
serde = { version = "1", features = ["derive"] }
serde_json = "1"
sha2 = "0.10"
structopt = "0.3"
surf = { version = "2", default-features = false, features = ["h1-client-rustls"] }
