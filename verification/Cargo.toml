[package]
name = "remote_life"
version = "0.1.0"
edition = "2021"
publish = false

[dependencies]
anyhow = "1"
byteorder = "1"
embedded-graphics = "0.8"
esp-idf-svc = "*"
rand = "0.8"
ssd1306 = "0.8"
