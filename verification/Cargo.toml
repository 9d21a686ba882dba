[package]
name = "syncdoc_migrate"
version = "0.1.0"
edition = "2021"
publish = false

[dependencies]
imara-diff = "=0.2.0"
proc-macro2 = { version = "=1.0.107", features = ["span-locations"] }
duct = "=1.1.2"
unsynn = "=0.3.0"

[dev-dependencies]
tempfile = "=3.27.0"
