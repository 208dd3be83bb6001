[package]
name = "tn"
version = "0.1.0"
edition = "2021"
publish = false

[dependencies]
axum = "*"
clap = { version = "*", features = ["derive"] }
home = "*"
miette = "*"
notify = "*"
pulldown-cmark = "*"
serde = { version = "*", features = ["derive"] }
sha256 = "*"
tokio = { version = "*", features = ["rt-multi-thread", "macros", "net"] }
toml = "*"
tower-http = { version = "*", features = ["fs"] }
