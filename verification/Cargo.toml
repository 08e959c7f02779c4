[package]
name = "exam_recorder"
version = "0.1.0"
edition = "2021"
publish = false

[dependencies]
aes-gcm = "0.10"
anyhow = "1"
clap = { version = "4", features = ["derive"] }
colored = "2"
dirs = "5"
hostname = "0.3"
nix = "0.26"
pbkdf2 = "0.12"
rand = "0.8"
rpassword = "7"
serde_json = "1"
sha2 = "0.10"
termios = "0.3"
zip = { version = "0.6", default-features = false, features = ["deflate"] }
