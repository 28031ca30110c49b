[package]
name = "ota_updater"
version = "0.1.0"
edition = "2021"
publish = false

[dependencies]
esp-partition-table = "*"
crc32fast = "*"
embedded-storage = "*"
embedded-io-async = "*"
