[package]
name = "tspawn"
version = "0.1.0"
edition = "2021"
publish = false

[dependencies]
parking_lot = { version = "*", features = ["arc_lock", "send_guard"] }
tokio = { version = "*", features = ["rt-multi-thread"] }
