[package]
name = "hud-cli"
version = "0.1.0"
edition = "2021"
publish = false

[dependencies]
chrono = "=0.4.45"
sysinfo = { version = "=0.40.1", default-features = false, features = ["system", "disk", "network"] }
nvml-wrapper = "=0.13.0"
eframe = { version = "=0.37.0", default-features = false, features = ["default_fonts", "glow", "x11"] }
egui = "=0.37.0"
egui_plot = "=0.38.0"
cpu-temp = "=0.1.0"
windows = { version = "=0.62.2", features = ["Win32_Foundation", "Win32_Graphics_Dwm", "Win32_Graphics_Gdi", "Win32_System_Console", "Win32_System_Power", "Win32_UI_WindowsAndMessaging"] }
