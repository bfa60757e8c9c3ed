[package]
name = "extension_installer"
version = "0.1.0"
edition = "2021"
publish = false

[dependencies]
flate2 = "1.0"
log = "0.4"
serde_json = "1.0"
tar = "0.4"
