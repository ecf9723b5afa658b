[package]
name = "lan_clipboard"
version = "2.0.1"
edition = "2021"
publish = false

[dependencies]
aes-gcm-siv = "=0.11.1"
anyhow = "=1.0.104"
arboard = "=3.7.0"
base64 = "=0.22.1"
bincode = "=1.3.3"
chacha20poly1305 = "=0.10.1"
clipboard-master = "=4.1.0"
clipboard-win = "=5.4.3"
directories = "=6.0.0"
hkdf = "=0.12.4"
hmac = "=0.12.1"
if-addrs = "=0.15.0"
image = { version = "=0.25.10", default-features = false, features = ["png", "bmp"] }
libc = "=0.2.191"
local-ip-address = "=0.6.13"
mdns-sd = "=0.13.11"
rand = "=0.8.8"
serde = { version = "=1.0.229", features = ["derive"] }
serde_json = "=1.0.154"
sha2 = "=0.10.9"
socket2 = { version = "=0.5.10", features = ["all"] }
tar = "=0.4.46"
thiserror = "=2.0.21"
tracing = "=0.1.44"
tracing-subscriber = { version = "=0.3.23", features = ["env-filter"] }
uuid = { version = "=1.29.0", features = ["v4"] }
windows-sys = { version = "=0.61.2", features = ["Win32_Foundation", "Win32_Networking_WinSock", "Win32_Storage_FileSystem"] }
