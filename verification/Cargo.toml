[package]
name = "net-monitor"
version = "0.1.0"
edition = "2021"
publish = false

[dependencies]
chrono = { version = "=0.4.45", default-features = false, features = ["clock"] }
clap = { version = "=4.6.7", default-features = false, features = ["std", "derive", "help", "usage", "error-context"] }
ctrlc = "=3.5.2"
etherparse = "=0.16.0"
nix = { version = "=0.29.0", features = ["signal"] }
pcap = { version = "=2.5.0", default-features = false }
serde = { version = "=1.0.229", features = ["derive"] }
serde_json = "=1.0.154"
tokio = { version = "=1.54.1", features = ["rt"] }
