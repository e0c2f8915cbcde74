[package]
name = "poker_assistant"
version = "0.1.0"
edition = "2021"
publish = false

[dependencies]
poker = "=0.5.1"
rand = "=0.8.8"
variter = "=0.3.0"
rayon = "=1.12.0"
clap = { version = "=4.6.7", features = ["derive"] }
lexpr = "=0.2.7"
plotters = "=0.3.7"
anyhow = "=1.0.104"
thiserror = "=2.0.21"
serde = { version = "=1.0.229", features = ["derive"] }
