[package]
name = "newcamd_lib"
version = "0.1.0"
edition = "2021"
publish = false

[dependencies]
anyhow = "=1.0.104"
clap = { version = "=4.6.7", features = ["derive"] }
des = "=0.8.1"
libmpegts = "=0.5.2"
md-5 = "=0.10.6"
rand = "=0.8.8"
reqwest = { version = "=0.12.28", default-features = false }
tokio = { version = "=1.54.1", features = ["io-util", "macros", "net", "rt", "rt-multi-thread", "sync", "time"] }
