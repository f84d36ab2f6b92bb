[package]
name = "ngit"
version = "0.1.0"
edition = "2021"
publish = false

[dependencies]
anyhow = "*"
clap = { version = "*", features = ["derive"] }
console = "*"
dialoguer = "*"
futures = "*"
git2 = "*"
indicatif = "*"
nostr = "*"
nostr-sdk = "*"
tokio = { version = "*", features = ["macros", "rt-multi-thread"] }
