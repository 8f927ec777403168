[package]
name = "borrow_audit"
version = "0.1.0"
edition = "2021"
publish = false

[dependencies]
petgraph = { version = "0.6", default-features = false }
fixedbitset = "0.4"
