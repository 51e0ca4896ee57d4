[package]
name = "rs_ffi_barrage"
version = "0.1.0"
edition = "2021"
publish = false

[dependencies]
crossbeam = "0.8"
image = "0.24"
lru = "0.7"
once_cell = "1"
parking_lot = "0.12"
serde = { version = "1", features = ["derive"] }
serde_json = "1"
ureq = "2"
