[package]
name = "ascalon_ar"
version = "0.1.0"
edition = "2021"
publish = false

[dependencies]
memmap2 = "=0.9.11"
convert_case = "=0.12.0"
proc-macro2 = "=1.0.107"
quote = "=1.0.47"
serde = "=1.0.229"
serde_json = { version = "=1.0.151", features = ["preserve_order"] }
