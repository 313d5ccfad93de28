[package]
name = "migrator"
version = "0.1.0"
edition = "2021"
publish = false

[dependencies]
sea-orm = { version = "*", default-features = false, features = ["macros"] }
sea-orm-migration = { version = "*", default-features = false }
async-trait = "*"
serde = { version = "*", features = ["derive"] }
