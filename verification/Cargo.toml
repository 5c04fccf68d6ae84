[package]
name = "boolean_policy"
version = "0.1.0"
edition = "2021"
publish = false

[dependencies]
anyhow = "1"
async-trait = "0.1"
boolean_expression = "*"
futures = "0.3"
thiserror = "1"
