[package]
name = "stardetect"
version = "0.1.0"
edition = "2021"
publish = false

[dependencies]
acap = "*"
geo = "*"
image = { version = "*", default-features = false, features = ["jpeg", "png"] }
image-dwt = "*"
imageproc = { version = "*", default-features = false }
rawloader = "*"
rayon = "*"
thiserror = "*"
