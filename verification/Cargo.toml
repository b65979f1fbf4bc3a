[package]
name = "block_transactions"
version = "0.1.0"
edition = "2021"
publish = false

[dependencies]
anyhow = "=1.0.104"
hex = "=0.4.3"
rand = "=0.8.8"
snarkvm-algorithms = "=0.7.9"
snarkvm-curves = "=0.7.9"
snarkvm-utilities = "=0.7.9"
