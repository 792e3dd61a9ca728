[package]
name = "gambit_core"
version = "0.1.0"
edition = "2021"
publish = false

[dependencies]
anyhow = "=1.0.104"
sha2 = "=0.10.9"
zstd = "=0.13.4"
clap = { version = "4", features = ["derive", "env"] }
