[package]
name = "chainletter"
version = "0.1.0"
edition = "2021"
publish = false

[dependencies]
rand = "=0.9.5"
rand_chacha = "=0.9.0"
bevy_shuffle_bag = "=0.4.0"
serde = { version = "1", features = ["derive"] }
