[package]
name = "naming_registry"
version = "0.1.0"
edition = "2021"
publish = false

[dependencies]
anyhow = "*"
async-trait = "*"
build-data = "*"
candid = "*"
const_env = "*"
ic-cdk = "*"
ic-cdk-macros = "*"
log = "*"
once_cell = "*"
serde = { version = "*", features = ["derive"] }
serde_bytes = "*"
thiserror = "*"
