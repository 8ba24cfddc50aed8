[package]
name = "fromfix"
version = "0.1.0"
edition = "2021"
publish = false

[dependencies]
ilhook = "=2.3.0"
windows-sys = { version = "=0.59.0", features = ["Win32_Foundation", "Win32_Security", "Win32_System_LibraryLoader", "Win32_System_Threading", "Win32_System_Memory", "Win32_UI_WindowsAndMessaging"] }
