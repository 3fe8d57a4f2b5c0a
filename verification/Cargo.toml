[package]
name = "rapidlog"
version = "0.1.0"
edition = "2021"
publish = false

[dependencies]
rtrb = "*"
time = "*"
parking_lot = "*"
anstream = "*"
