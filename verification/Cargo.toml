[package]
name = "rift_wm"
version = "0.1.0"
edition = "2021"
publish = false

[dependencies]
objc2-core-foundation = { version = "=0.3.2", default-features = false, features = ["std", "CFCGTypes"] }
tracing = "=0.1.44"
nix = "=0.29.0"
sigpipe = "=0.1.3"
