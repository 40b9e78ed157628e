[package]
name = "code_review_agent"
version = "0.1.0"
edition = "2021"
publish = false

[dependencies]
async-trait = "0.1"
clap = { version = "4", features = ["derive", "env"] }
color-eyre = "0.6"
colored = "*"
dotenvy = "0.15"
grep = "0.3"
ignore = "0.4"
indexmap = "2"
reqwest = { version = "0.12", default-features = false, features = ["json"] }
schemars = "*"
serde = { version = "1", features = ["derive"] }
serde_json = "1"
tokio = { version = "1", features = ["macros", "rt-multi-thread", "fs", "io-util"] }
tracing = "0.1"
