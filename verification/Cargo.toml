[package]
name = "dispatcher"
version = "0.1.0"
edition = "2021"
publish = false

[dependencies]
html5ever = "0.22"
iron = "0.6"
mount = "0.4"
router = "0.6"
serde = "1"
serde_derive = "1"
serde_json = { version = "1", features = ["preserve_order"] }
staticfile = { version = "0.5", features = ["cache"] }
time = "0.1"
