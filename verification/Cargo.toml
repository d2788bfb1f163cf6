[package]
name = "olea_core"
version = "0.1.0"
edition = "2021"
publish = false

[dependencies]
aes = "=0.8.4"
nusb = "=0.1.14"
serde_json = "=1.0.154"
windows = { version = "0.58", features = ["Win32_Foundation", "Win32_Media_Audio", "Win32_Media_Audio_Endpoints", "Win32_Security", "Win32_System_Com", "Win32_System_Com_StructuredStorage", "Win32_System_Threading", "Win32_System_Variant", "Win32_UI_Shell_PropertiesSystem"] }
