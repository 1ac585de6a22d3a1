[package]
name = "let-smi-core"
version = "0.1.0"
edition = "2021"
publish = false

[dependencies]
blake3 = { version = "1", default-features = false, features = ["pure"] }
serde = { version = "1", features = ["derive"] }
serde_json = "1"
parking_lot = "0.12"
thiserror = "*"
nvml-wrapper = "*"
libc = "0.2"
libloading = "*"
napi = { version = "3", features = ["napi8", "serde-json", "async"] }
napi-derive = "3"
metal = "*"
core-foundation-sys = "0.8"
windows = { version = "*", features = ["Win32_Foundation", "Win32_Graphics_Dxgi", "Win32_Graphics_Dxgi_Common", "Win32_System_Com", "Win32_System_LibraryLoader", "Win32_System_Performance", "Win32_System_SystemInformation", "Win32_UI_Shell"] }
