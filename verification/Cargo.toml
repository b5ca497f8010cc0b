[package]
name = "defmt-persist"
version = "0.1.0"
edition = "2021"
publish = false

[dependencies]
anyhow = "1"
clap = { version = "4", features = ["derive"] }
cortex-m = "0.7"
cortex-m-rt = "0.7"
cortex-m-semihosting = "0.5"
critical-section = { version = "1", features = ["std"] }
defmt = "1"
defmt-decoder = "1"
tempfile = "3"
