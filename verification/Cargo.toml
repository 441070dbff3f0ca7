[package]
name = "slot_machine"
version = "0.1.0"
edition = "2021"
publish = false

[dependencies]
rand = "*"
csv = "*"
serde = { version = "*", features = ["derive"] }
serde_json = "*"
ctrlc = "*"
