[package]
name = "leybold_opc_rs"
version = "0.1.0"
edition = "2021"
publish = false

[dependencies]
yore = "*"
compact_str = "*"
anyhow = "1"
clap = { version = "4", features = ["derive"] }
ctrlc = "3"
rhexdump = "*"
serde = { version = "1", features = ["derive"] }
serde_json = "1"
tracing = "0.1"
