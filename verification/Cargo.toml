[package]
name = "flows"
version = "0.1.0"
edition = "2021"
publish = false

[dependencies]
regex = "1"
serde = { version = "1", features = ["derive"] }
serde_json = "1"
sysinfo = "*"
nix = { version = "*", features = ["signal"] }
open = "5"
uuid = { version = "1", features = ["v4"] }
