[package]
name = "omnect_os_init"
version = "0.1.0"
edition = "2021"
publish = false

[dependencies]
log = "0.4"
nix = { version = "0.30", features = ["fs", "mount", "user"] }
serde = { version = "1", features = ["derive"] }
serde_json = "1"
