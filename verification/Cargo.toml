[package]
name = "fingers"
version = "0.1.0"
edition = "2021"
publish = false

[dependencies]
anyhow = "1"
enigo = "0.6"
image = { version = "0.25", default-features = false }
minifb = { version = "0.28", default-features = false, features = ["x11"] }
ndarray = "*"
nokhwa = "0.10"
ort = { version = "=2.0.0-rc.15", default-features = false, features = ["std", "ndarray", "load-dynamic"] }
