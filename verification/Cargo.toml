[package]
name = "usb-gadget-supervisor"
version = "0.1.0"
edition = "2021"
publish = false

[dependencies]
ciborium = "0.2"
gpiocdev-uapi = "*"
libc = "0.2"
serde = { version = "1", features = ["derive"] }
serde_bytes = "0.11"
toml = "*"
