[package]
name = "shamir"
version = "0.1.0"
edition = "2021"

[dependencies]
base64 = "*"
rand = "0.8"
sharks = "*"
