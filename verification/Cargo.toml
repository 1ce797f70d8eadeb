[package]
name = "hive"
version = "0.1.0"
edition = "2021"
publish = false

[dependencies]
chrono = "0.4"
clap = { version = "4", features = ["derive"] }
clap_complete = "4"
colored = "2"
ctrlc = "3"
dialoguer = "0.11"
indexmap = { version = "2", features = ["serde"] }
indicatif = "0.17"
serde = { version = "1", features = ["derive"] }
serde_json = "1"
serde_yaml = "0.9"
thiserror = "1"
which = "6"
