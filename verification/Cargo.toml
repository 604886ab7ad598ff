[package]
name = "nom_sql_learning"
version = "0.1.0"
edition = "2021"
publish = false

[dependencies]
anyhow = "1"
async-std = { version = "1", features = ["attributes"] }
log = "0.4"
log4rs = "1"
nom = "1"
serde = { version = "1", features = ["derive"] }
serde_json = "1"
tide = "0.16"
