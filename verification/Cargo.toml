[package]
name = "wots"
version = "0.1.0"
edition = "2021"
publish = false

[dependencies]
anyhow = "=1.0.104"
blake3 = { version = "1", features = ["pure"] }
clap = { version = "=4.6.7", features = ["derive"] }
clap_complete = "4"
colored = "=2.2.0"
glob = "=0.3.4"
rayon = "=1.12.0"
serde = { version = "=1.0.229", features = ["derive"] }
serde_json = "=1.0.154"
shellexpand = "=3.1.2"
tabled = "=0.16.0"
walkdir = "=2.5.0"
