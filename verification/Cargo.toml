[package]
name = "coold"
version = "0.1.0"
edition = "2021"
publish = false

[dependencies]
serde = { version = "*", features = ["derive"] }
serde_json = "*"
glob = "*"
clap = { version = "*", features = ["derive"] }
ctrlc = "*"
env_logger = "*"
reqwest = { version = "*", default-features = false, features = ["json"] }
tokio = { version = "*", features = ["macros", "rt-multi-thread"] }
actix-web = { version = "*", default-features = false, features = ["macros"] }
