[package]
name = "sage"
version = "0.1.0"
edition = "2021"
publish = false

[dependencies]
anyhow = "1"
arboard = { version = "3", default-features = false }
clap = { version = "4", features = ["derive"] }
dialoguer = "0.11"
dirs = "6"
encoding_rs = "0.8"
futures-util = "0.3"
indicatif = "0.17"
llama-cpp-2 = "*"
reqwest = { version = "0.12", default-features = false, features = ["rustls-tls", "stream"] }
serde = { version = "1", features = ["derive"] }
serde_json = "1"
tokio = { version = "1", features = ["macros", "rt-multi-thread"] }
