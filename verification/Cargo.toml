[package]
name = "xmodits-lib"
version = "0.1.0"
edition = "2021"
publish = false

[dependencies]
byteorder = "1"
dasp = "0.11"
extended = "*"
bytemuck = "1"
thiserror = "1"
serde = { version = "1", features = ["derive"] }
rayon = "1"
rubato = "0.14"
