[package]
name = "argon"
version = "0.1.0"
edition = "2021"
publish = false

[dependencies]
tokio = { version = "1", features = ["sync", "rt", "rt-multi-thread", "macros"] }
tokio-util = { version = "0.7", features = ["codec"] }
tun = { version = "0.5", features = ["async"] }
futures = "0.3"
nonempty = "0.8"
itertools = "0.10"
gcd = "2"
packet = "0.1"
serde = "1"
serde_derive = "1"
serde_json = "1"
thiserror = "1"
clap = { version = "4", features = ["derive"] }
async-trait = "0.1"
async-channel = "1"
