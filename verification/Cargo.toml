[package]
name = "monlam"
version = "0.1.0"
edition = "2021"
publish = false

[dependencies]
serde = { version = "1", features = ["derive"] }
serde_json = "1"
hound = "3"
rustfft = "6"
num-complex = "0.4"
cmaes = "*"
symphonia = "0.5"
