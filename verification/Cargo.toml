[package]
name = "json_parser"
version = "0.1.0"
edition = "2021"
publish = false

[dependencies]
haversine = "=0.2.1"
once_cell = "=1.21.4"
winapi = { version = "=0.3.9", features = ["profileapi"] }
windows-sys = { version = "=0.52.0", features = ["Win32_Foundation", "Win32_System_ProcessStatus", "Win32_System_Threading"] }
