[package]
name = "pingd"
version = "0.1.0"
edition = "2021"
publish = false

[dependencies]
rusqlite = { version = "0.31", features = ["bundled"] }
time = "0.1"
iron = "0.6"
oping = "*"
crossbeam = "*"
