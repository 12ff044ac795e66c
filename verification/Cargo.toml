[package]
name = "phrack_issue_manager"
version = "0.1.0"
edition = "2021"
publish = false

[dependencies]
clap = { version = "4", features = ["derive"] }
comfy-table = "*"
directories-next = "2"
enum-iterator = "*"
epub-builder = "*"
genpdf = "0.2"
reqwest = { version = "*", default-features = false }
serde = { version = "1", features = ["derive"] }
thiserror = "*"
tokio = { version = "1", features = ["rt-multi-thread", "macros", "time"] }
toml = "*"
