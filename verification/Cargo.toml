[package]
name = "qcrypt"
version = "0.1.0"
edition = "2021"
publish = false

[dependencies]
aes-gcm = "0.10"
argon2 = "0.5"
base64 = "0.22"
blake3 = "1"
hkdf = "0.12"
sha2 = "0.10"
sha3 = "0.10"
ml-kem = "0.2"
pem = "3"
rand = "0.8"
secp256k1 = { version = "*", features = ["recovery", "rand", "std"] }
image = { version = "0.25", default-features = false, features = ["png", "bmp"] }
serde_json = "1"
ureq = "2"
clap = { version = "4", features = ["derive"] }
rpassword = "7"
zeroize = "1"
crossbeam-channel = "0.5"
yubikey-hmac-otp = "*"
