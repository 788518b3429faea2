[package]
name = "drop_finder"
version = "0.1.0"
edition = "2021"
publish = false

[dependencies]
chrono = "0.4"
clap = { version = "4", features = ["derive"] }
fastanvil = { version = "*", default-features = false }
fastnbt = "2"
indicatif = "0.17"
rayon = "1"
serde = { version = "1", features = ["derive"] }
