[package]
name = "forke"
version = "0.1.0"
edition = "2021"
publish = false

[dependencies]
hashbrown = "=0.17.1"
litemap = "=0.8.3"
rustc-hash = "=2.1.3"
lockbell = { version = "=0.3.0", features = ["arc_lock"] }
parking_lot = "=0.13.0"
