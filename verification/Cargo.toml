[package]
name = "sideterm_sidebar"
version = "0.1.0"
edition = "2021"
publish = false

[dependencies]
finl_unicode = "1.2"
textwrap = "0.16"
serde = { version = "1.0", features = ["derive"] }
serde_json = "1.0"
anyhow = "1.0"
log = "0.4"
smol = "2.0"
