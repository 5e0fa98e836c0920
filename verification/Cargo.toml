[package]
name = "rokr"
version = "0.1.0"
edition = "2021"
publish = false

[dependencies]
axoupdater = "*"
clap = { version = "4", features = ["derive"] }
clap_complete = "4"
reqwest = { version = "0.12", default-features = false, features = ["json"] }
rmcp = { version = "*", default-features = false, features = ["client", "transport-child-process"] }
serde = { version = "1", features = ["derive"] }
serde_json = "1"
sha2 = "0.10"
tempfile = "3"
thiserror = "2"
tokio = { version = "1", features = ["full"] }
