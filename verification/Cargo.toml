[package]
name = "battlefield_rcon"
version = "0.1.0"
edition = "2021"
publish = false

[dependencies]
ascii = "1"
md5 = "0.7"
tokio = { version = "1", features = ["net", "io-util", "rt-multi-thread", "macros", "sync"] }
clap = "2"
crossterm = "0.19"
dotenv = "0.15"
serde = { version = "1", features = ["derive"] }
async-trait = "0.1"
