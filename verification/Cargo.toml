[package]
name = "kevat"
version = "0.1.0"
edition = "2021"
publish = false

[dependencies]
xxhash-rust = { version = "0.8", features = ["xxh3"] }
png = "0.17"
serde = { version = "1", features = ["derive"] }
serde_json = "1"
libc = "0.2"
egui = { version = "0.29", default-features = false, features = ["default_fonts"] }
egui-winit = { version = "0.29", default-features = false, features = ["x11", "wayland"] }
winit = { version = "0.30", default-features = false, features = ["x11", "wayland", "wayland-dlopen", "rwh_06"] }
softbuffer = "0.4"
windows-sys = { version = "0.59", features = ["Win32_Foundation", "Win32_Storage_FileSystem", "Win32_System_IO", "Win32_System_Ioctl", "Win32_System_Power", "Win32_Devices_DeviceAndDriverInstallation", "Win32_Devices_Properties"] }
