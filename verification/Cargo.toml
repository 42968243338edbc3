[package]
name = "rust-clash"
version = "0.1.0"
edition = "2021"
publish = false

[dependencies]
aes = "=0.8.4"
aes-gcm = "=0.10.3"
base64 = "=0.22.1"
cfb-mode = "=0.8.2"
chacha20poly1305 = "=0.10.1"
crc32fast = "=1.5.4"
flate2 = "=1.1.10"
hex = "=0.4.3"
hkdf = "=0.12.4"
hmac = "=0.12.1"
idna = "=1.1.0"
libloading = "0.8"
md-5 = "=0.10.6"
parking_lot = "=0.12.5"
rand = "=0.8.8"
reqwest = { version = "=0.12.28", default-features = false, features = ["rustls-tls"] }
rustls = { version = "=0.23.46", default-features = false, features = ["ring", "std", "tls12"] }
serde = { version = "=1.0.229", features = ["derive"] }
serde_json = "=1.0.154"
sha1 = "=0.10.7"
sha2 = "=0.10.9"
sha3 = "=0.10.9"
tokio = { version = "=1.54.1", features = ["full"] }
tokio-rustls = { version = "=0.26.6", default-features = false, features = ["ring", "tls12"] }
tokio-util = "=0.7.20"
url = "=2.5.8"
uuid = { version = "=1.29.0", features = ["v4"] }
webpki-roots = "=1.0.10"
windows-sys = { version = "0.59", features = [
    "Win32_Foundation",
    "Win32_NetworkManagement_IpHelper",
    "Win32_NetworkManagement_Ndis",
    "Win32_Networking_WinInet",
    "Win32_Networking_WinSock",
    "Win32_Security",
    "Win32_System_Registry",
    "Win32_System_Threading",
    "Win32_UI_Shell",
    "Win32_UI_WindowsAndMessaging",
] }
x25519-dalek = { version = "=2.0.1", features = ["static_secrets"] }
