[package]
name = "plume_utils"
version = "0.1.0"
edition = "2021"
publish = false

[dependencies]
idevice = { version = "*", features = ["full"] }
image = { version = "*", default-features = false }
log = "0.4"
mdns-sd = "0.13"
plist = "1"
thiserror = "2"
tokio = { version = "1", features = ["fs", "net", "rt", "time"] }
uuid = { version = "1", features = ["v3", "v4"] }
zip = { version = "*", default-features = false }
