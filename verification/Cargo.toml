[package]
name = "gh_updater"
version = "0.1.0"
edition = "2021"
publish = false

[dependencies]
yaml-rust = "0.4"
x509-parser = "*"
serde = { version = "1", features = ["derive"] }
envy = "0.4"
hubcaps = "0.6"
tokio = { version = "0.2", features = ["macros", "rt-threaded"] }
