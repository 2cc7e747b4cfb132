[package]
name = "homeassist"
version = "0.1.0"
edition = "2021"
publish = false

[dependencies]
regex = "1"
percent-encoding = "2"
serde = { version = "1", features = ["derive"] }
serde_json = "1"
serde_yaml = "0.9"
glob = "0.3"
clap = { version = "4", features = ["derive"] }
clap_complete = "4"
reqwest = { version = "0.12", default-features = false, features = ["json", "rustls-tls"] }
tokio = { version = "1", features = ["macros", "rt-multi-thread", "time", "net", "io-std"] }
tokio-tungstenite = "0.24"
futures-util = { version = "0.3", features = ["sink"] }
thiserror = "2"
