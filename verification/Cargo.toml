[package]
name = "shell_script_manager"
version = "0.1.0"
edition = "2021"
publish = false

[dependencies]
rand = "0.8"
reqwest = { version = "0.12", default-features = false, features = ["json"] }
tokio = { version = "1", features = ["rt-multi-thread", "time", "process", "sync"] }
serde_json = "1"
dirs = "5"
whoami = "1"
