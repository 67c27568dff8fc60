[package]
name = "loomz"
version = "0.1.0"
edition = "2021"
publish = false

[dependencies]
serde_json = "1"
png = "0.17"
fnv = "1"
bitflags = "2"
parking_lot = "0.12"
raw-window-handle = "0.6"
unicode-segmentation = "1"
