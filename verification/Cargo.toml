[package]
name = "graft"
version = "0.1.0"
edition = "2021"
publish = false

[dependencies]
splinter-rs = "=0.3.3"
bytes = "=1.12.1"
fjall = "=2.11.2"
lsm-tree = "=2.10.4"
parking_lot = "=0.12.5"
tempfile = "=3.27.0"
thiserror = "=2.0.21"
log = "=0.4.34"
