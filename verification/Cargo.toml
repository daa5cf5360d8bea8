[package]
name = "netchecker"
version = "0.1.0"
edition = "2021"
publish = false

[dependencies]
auto-launch = "=0.6.0"
directories = "=6.0.0"
eframe = { version = "=0.37.0", default-features = false, features = ["default_fonts", "glow", "x11"] }
netdev = "=0.47.0"
serde = { version = "1", features = ["derive"] }
serde_json = "1"
socket2 = { version = "=0.6.5", features = ["all"] }
sysinfo = { version = "=0.29.11", default-features = false }
tray-icon = { version = "=0.26.1", default-features = false, features = ["ksni"] }
ureq = "=3.5.1"
windows-sys = { version = "=0.61.2", features = ["Win32_Foundation", "Win32_NetworkManagement_IpHelper"] }
