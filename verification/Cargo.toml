[package]
name = "what_rs"
version = "0.1.0"
edition = "2021"
publish = false

[dependencies]
regex = "*"
pcap-parser = "*"
clap = "*"
clap_complete = "*"
colored = "*"
fancy-regex = "*"
human-panic = "*"
serde = { version = "*", features = ["derive"] }
serde_json = "*"
tabled = "*"
terminal_size = "*"
