[package]
name = "wsblast"
version = "0.1.0"
edition = "2021"
publish = false

[dependencies]
hdrhistogram = { version = "7", default-features = false }
http = "1"
url = "2"
serde = { version = "1", features = ["derive"] }
serde_json = "1"
comfy-table = "7"
colored = "2"
clap = { version = "4", features = ["derive"] }
thiserror = "2"
tokio = { version = "1", features = ["full"] }
tokio-tungstenite = { version = "0.26", features = ["rustls-tls-native-roots"] }
tokio-util = "0.7"
futures-util = { version = "0.3", features = ["sink"] }
bytes = "1"
indicatif = "0.17"
crossterm = "0.28"
ratatui = "0.29"
rustls = { version = "0.23", default-features = false, features = ["ring", "std", "logging", "tls12"] }
libc = "0.2"
