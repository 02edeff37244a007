[package]
name = "plume"
version = "0.1.0"
edition = "2021"
publish = false

[dependencies]
aes = "=0.9.4"
anyhow = "=1.0.104"
base64 = "=0.23.1"
cbc = { version = "=0.2.1", features = ["alloc"] }
chrono = "=0.4.45"
clap = { version = "=4.6.7", features = ["derive"] }
dialoguer = "=0.12.0"
futures = "=0.3.34"
hmac = "=0.13.0"
idevice = { version = "=0.1.68", features = ["full"] }
image = { version = "*", default-features = false, features = ["bmp", "gif", "ico", "jpeg", "png", "tiff", "webp"] }
log = "=0.4.35"
mdns-sd = "=0.21.7"
plist = "=1.10.3"
regex = "=1.13.1"
reqwest = { version = "=0.13.5", default-features = false }
serde = { version = "=1.0.229", features = ["derive"] }
sha2 = "=0.11.1"
srp = "=0.6.0"
thiserror = "=2.0.21"
tokio = { version = "=1.54.1", features = ["full"] }
uuid = { version = "=1.29.0", features = ["v3", "v4"] }
x509-certificate = "=0.25.0"
