[package]
name = "settle"
version = "0.1.0"
edition = "2021"
publish = false

[dependencies]
regex = "=1.13.1"
rayon = "=1.12.0"
chrono = "=0.4.45"
shellexpand = "=3.1.2"
petgraph = { version = "=0.8.3", features = ["serde-1"] }
rusqlite = { version = "=0.40.2", features = ["bundled"] }
glob = "=0.3.4"
serde = { version = "=1.0.229", features = ["derive"] }
serde_json = "=1.0.151"
serde_yaml = "=0.9.34"
clap = "=4.6.7"
clap_complete = "=4.6.11"
dialoguer = "=0.12.0"
