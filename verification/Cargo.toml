[package]
name = "tile_sorcerer"
version = "0.1.0"
edition = "2021"
publish = false

[dependencies]
async-trait = "*"
serde = { version = "*", features = ["derive"] }
serde_yaml = "*"
sqlx = { version = "*", default-features = false, features = ["postgres", "runtime-tokio"] }
thiserror = "*"
